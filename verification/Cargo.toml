[package]
name = "minsec"
version = "0.1.0"
edition = "2021"
publish = false

[dependencies]
ipnet = { version = "2", features = ["serde"] }
anyhow = "1"
serde = { version = "1", features = ["derive"] }
serde_json = "1"
clap = { version = "4", features = ["derive"] }
clap_complete = "4"
tracing = "0.1"
tracing-subscriber = { version = "0.3", features = ["env-filter"] }
toml = "*"
