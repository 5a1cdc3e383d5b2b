[package]
name = "pi-command-not-found-adapter"
version = "0.1.0"
edition = "2021"
publish = false

[dependencies]
anyhow = "1"
clap = { version = "4", features = ["derive", "env"] }
console = "*"
dirs = "*"
figment = { version = "0.10", features = ["json", "env"] }
schemars = "*"
serde = { version = "1", features = ["derive"] }
serde_json = "1"
signal-hook = "*"
tracing = "0.1"
tracing-subscriber = { version = "0.3", features = ["env-filter"] }
