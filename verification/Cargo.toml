[package]
name = "deepseek_swarm"
version = "0.1.0"
edition = "2021"
publish = false

[dependencies]
serde = { version = "=1.0.229", features = ["derive"] }
serde_json = "=1.0.154"
uuid = { version = "=1.29.0", features = ["v4"] }
unicode-width = "=0.2.0"
syntect = { version = "=5.3.0", default-features = false, features = ["parsing", "default-syntaxes", "default-themes", "regex-fancy"] }
ratatui = { version = "=0.29.0", default-features = false, features = ["underline-color"] }
egui = "=0.30.0"
tokio = { version = "=1.54.1", features = ["rt", "sync", "time", "macros"] }
async-trait = "=0.1.92"
anyhow = "=1.0.104"
tracing = "=0.1.44"
dirs = "=5.0.1"
