[package]
name = "history_notes"
version = "0.1.0"
edition = "2021"
publish = false

[dependencies]
http = "1"
serde_json = "1"
tokio = { version = "1", features = ["fs", "io-util"] }
toml = "*"
