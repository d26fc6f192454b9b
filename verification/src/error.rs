//! The failures that the engine reports.

use vstd::prelude::*;
use vstd::std_specs::convert::FromSpecImpl;

verus! {

/// Errors that can occur while parsing an action string from the model.
#[derive(Debug, PartialEq, Eq)]
pub enum ActionParseError {
    /// An action of type `ty` came without an identifier.
    MissingId { ty: String },
    /// The identifier `id` is not a non-negative integer.
    NonIntegerId { id: String },
    /// A typing action came without text.
    MissingTextInType,
    /// The text of a typing action is not wrapped in single quotes.
    TextInTypeNotSingleQuoted { text: String },
    /// A wait or finish action came without a description.
    MissingDescription,
    /// Lines follow the finish action.
    ActionsAfterFinish,
}

/// The mathematical value of an [`ActionParseError`].
pub ghost enum ActionParseErrorView {
    MissingId { ty: Seq<char> },
    NonIntegerId { id: Seq<char> },
    MissingTextInType,
    TextInTypeNotSingleQuoted { text: Seq<char> },
    MissingDescription,
    ActionsAfterFinish,
}

impl View for ActionParseError {
    type V = ActionParseErrorView;

    open spec fn view(&self) -> ActionParseErrorView {
        match *self {
            ActionParseError::MissingId { ty } => ActionParseErrorView::MissingId { ty: ty@ },
            ActionParseError::NonIntegerId { id } => ActionParseErrorView::NonIntegerId { id: id@ },
            ActionParseError::MissingTextInType => ActionParseErrorView::MissingTextInType,
            ActionParseError::TextInTypeNotSingleQuoted { text } => {
                ActionParseErrorView::TextInTypeNotSingleQuoted { text: text@ }
            },
            ActionParseError::MissingDescription => ActionParseErrorView::MissingDescription,
            ActionParseError::ActionsAfterFinish => ActionParseErrorView::ActionsAfterFinish,
        }
    }
}

/// Errors that can occur while executing a user command.
#[derive(Debug, PartialEq, Eq)]
pub enum ExecutionError {
    /// The model returned an identifier that stands for no selector of the
    /// current tree.
    IdNotFound { id: usize },
    /// The element tree kept changing for `timeout_ms` milliseconds.
    TreeStabilisationTimeout { timeout_ms: u32 },
    /// The element tree did not change at a waitpoint that the model asked
    /// for.
    NoTreeUpdate { timeout_ms: u32 },
    /// The model failed; `source` is what it reported.
    ModelError { source: String },
    /// The interface failed; `source` is what it reported.
    InterfaceError { source: String },
    /// The model's answer holds an action that cannot be parsed.
    ActionParseError(ActionParseError),
    /// The command was not finished after `num_trips` trips.
    CommandNotFinished { num_trips: u32 },
    /// The nested tree could not be rebuilt within `iterations` passes.
    TreeReconstitutionTimeout { iterations: usize },
}

/// The mathematical value of an [`ExecutionError`].
pub ghost enum ExecutionErrorView {
    IdNotFound { id: usize },
    TreeStabilisationTimeout { timeout_ms: u32 },
    NoTreeUpdate { timeout_ms: u32 },
    ModelError { source: Seq<char> },
    InterfaceError { source: Seq<char> },
    ActionParseError(ActionParseErrorView),
    CommandNotFinished { num_trips: u32 },
    TreeReconstitutionTimeout { iterations: usize },
}

impl View for ExecutionError {
    type V = ExecutionErrorView;

    open spec fn view(&self) -> ExecutionErrorView {
        match *self {
            ExecutionError::IdNotFound { id } => ExecutionErrorView::IdNotFound { id },
            ExecutionError::TreeStabilisationTimeout { timeout_ms } => {
                ExecutionErrorView::TreeStabilisationTimeout { timeout_ms }
            },
            ExecutionError::NoTreeUpdate { timeout_ms } => ExecutionErrorView::NoTreeUpdate {
                timeout_ms,
            },
            ExecutionError::ModelError { source } => ExecutionErrorView::ModelError {
                source: source@,
            },
            ExecutionError::InterfaceError { source } => ExecutionErrorView::InterfaceError {
                source: source@,
            },
            ExecutionError::ActionParseError(e) => ExecutionErrorView::ActionParseError(e@),
            ExecutionError::CommandNotFinished { num_trips } => {
                ExecutionErrorView::CommandNotFinished { num_trips }
            },
            ExecutionError::TreeReconstitutionTimeout { iterations } => {
                ExecutionErrorView::TreeReconstitutionTimeout { iterations }
            },
        }
    }
}

impl From<ActionParseError> for ExecutionError {
    fn from(err: ActionParseError) -> (r: ExecutionError) {
        ExecutionError::ActionParseError(err)
    }
}

impl FromSpecImpl<ActionParseError> for ExecutionError {
    open spec fn obeys_from_spec() -> bool {
        true
    }

    open spec fn from_spec(err: ActionParseError) -> ExecutionError {
        ExecutionError::ActionParseError(err)
    }
}

} // verus!
