[package]
name = "voxurf"
version = "0.1.0"
edition = "2021"
publish = false

[dependencies]
anyhow = "1"
axum = "0.7"
console_error_panic_hook = "0.1"
cpal = "0.15"
futures = "0.3"
gloo-net = "0.5"
gloo-timers = { version = "0.3", features = ["futures"] }
hound = "3.5"
log = "0.4"
num_cpus = "1"
reqwest = { version = "0.11", features = ["json", "stream", "blocking"] }
serde = { version = "1", features = ["derive"] }
serde_json = "1"
serde-wasm-bindgen = "0.6"
simplelog = "0.12"
sycamore = { version = "0.8", features = ["suspense"] }
tempfile = "3"
thiserror = "1"
tokio = { version = "1", features = ["full"] }
tower-http = { version = "0.5", features = ["cors"] }
wasm-bindgen = "0.2"
wasm-bindgen-futures = "0.4"
whisper-rs = "0.10"
