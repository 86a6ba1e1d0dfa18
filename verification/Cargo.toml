[package]
name = "sourcery"
version = "0.1.0"
edition = "2021"
publish = false

[dependencies]
async-stream = "=0.3.6"
darling = "=0.24.1"
futures-core = "=0.3.34"
heck = "=0.5.0"
nonempty = "=0.12.0"
proc-macro2 = "=1.0.107"
quote = "=1.0.47"
serde = { version = "=1.0.229", features = ["derive"] }
serde_json = "=1.0.154"
syn = { version = "=3.0.9", features = ["full"] }
thiserror = "=2.0.21"
tokio = { version = "=1.54.1", features = ["sync", "rt", "time", "macros"] }
tokio-stream = { version = "=0.1.19", features = ["sync"] }
tracing = "=0.1.44"
