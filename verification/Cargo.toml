[package]
name = "session_usage"
version = "0.1.0"
edition = "2021"
publish = false

[dependencies]
tokio = { version = "1", features = ["sync", "time", "rt", "macros"] }
ratatui = "*"
serde = { version = "1", features = ["derive"] }
serde_json = "1"
