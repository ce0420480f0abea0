[package]
name = "gemma4"
version = "0.1.0"
edition = "2021"
publish = false

[dependencies]
serde_json = "1"
serde = { version = "1", features = ["derive"] }
tokio = { version = "1", features = ["sync"] }
tracing = "0.1"
napi = { version = "3", default-features = false, features = ["napi4"] }
napi-derive = "3"
