[package]
name = "codex_trace"
version = "0.5.0"
edition = "2021"
publish = false

[dependencies]
axum = "0.8"
base64 = "0.22"
dirs = "6"
hmac = "0.12"
rand = "0.9"
serde = { version = "1", features = ["derive"] }
serde_json = "1"
sha2 = "0.10"
subtle = "2"
tokio = { version = "1", features = ["full"] }
tokio-stream = { version = "0.1", features = ["sync"] }
tower-http = { version = "0.6", features = ["cors", "fs"] }
uuid = { version = "1", features = ["v4", "serde"] }
