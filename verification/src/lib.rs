//! Command-execution engine that turns one natural-language instruction into a
//! bounded sequence of UI actions against a tree of actionable elements.

pub mod action;
pub mod ax;
pub mod decimal;
pub mod error;
pub mod executor;
pub mod ids;
pub mod monitor;
pub mod properties;
pub mod prompt;
pub mod reconstitute;
pub mod render;
pub mod text;
pub mod tree;
pub mod whisper;
