[package]
name = "yql_core"
version = "0.1.0"
edition = "2021"
publish = false

[dependencies]
ahash = "*"
anyhow = "*"
async-stream = "*"
csv = "*"
futures-util = "*"
regex = "*"
serde = { version = "*", features = ["derive"] }
tokio = { version = "*", features = ["rt", "sync", "time"] }
tokio-stream = "*"
tracing = "*"
