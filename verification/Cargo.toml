[package]
name = "jumakl_extractor"
version = "0.1.0"
edition = "2021"
publish = false

[dependencies]
quick-xml = "0.37"
chrono = "0.4"
anyhow = "1"
clap = { version = "4", features = ["derive"] }
dotenvy = "0.15"
lettre = "0.11"
reqwest = { version = "0.12", features = ["blocking"] }
serde = { version = "1", features = ["derive"] }
toml = "0.8"
tracing = "0.1"
tracing-appender = "0.2"
tracing-subscriber = { version = "0.3", features = ["env-filter"] }
