[package]
name = "forja"
version = "0.1.0"
edition = "2021"
publish = false

[dependencies]
serde = { version = "1", features = ["derive"] }
serde_json = "1"
serde_yaml = "0.9"
chrono = "0.4"
uuid = { version = "1", features = ["v4"] }
dirs = "5"
thiserror = "2"
tokio = { version = "1", features = ["process", "sync", "rt", "rt-multi-thread", "time", "macros", "io-util"] }
ratatui = "0.29"
crossterm = "0.28"
tui-textarea = "0.7"

[dev-dependencies]
tempfile = "3"
