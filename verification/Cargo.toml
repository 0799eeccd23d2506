[package]
name = "kairotui"
version = "0.1.0"
edition = "2021"
publish = false

[dependencies]
anyhow = "1"
color-eyre = "*"
dirs = "*"
ratatui = "*"
regex = "1"
serde = { version = "1", features = ["derive"] }
serde_json = "1"
serde_millis = "*"
tachyonfx = "*"
tracing = "*"
tracing-appender = "*"
tracing-subscriber = "*"
