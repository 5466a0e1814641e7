[package]
name = "autorize"
version = "0.2.15"
edition = "2021"
publish = false

[dependencies]
anyhow = "1"
chrono = { version = "0.4", features = ["serde"] }
clap = { version = "4", features = ["derive"] }
globset = "0.4"
humantime = "2"
humantime-serde = "1"
nix = { version = "0.30", features = ["signal", "process", "fs"] }
owo-colors = "4"
regex = "1"
serde = { version = "1", features = ["derive"] }
serde_json = "1"
serde_json_path = "0.7"
signal-hook = "0.3"
thiserror = "2"
toml = "0.9"
tracing = "0.1"
tracing-appender = "0.2"
tracing-subscriber = { version = "0.3", features = ["env-filter"] }
