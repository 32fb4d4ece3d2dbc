[package]
name = "oxide_gate"
version = "0.1.0"
edition = "2021"
publish = false

[dependencies]
serde_json = "*"
uuid = { version = "*", features = ["v4"] }
axum = "*"
tokio = { version = "*", features = ["rt-multi-thread", "macros", "net"] }
tokio-stream = "*"
futures = "*"
reqwest = { version = "*", default-features = false, features = ["json", "stream"] }
async-stream = "*"
