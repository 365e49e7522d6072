[package]
name = "ityfuzz_analyzer"
version = "0.1.0"
edition = "2021"
publish = false

[dependencies]
chrono = "0.4"
clap = { version = "4", features = ["derive"] }
serde = { version = "1", features = ["derive"] }
csv = "1"
eyre = "0.6"
glob = "0.3"
indicatif = "0.17"
rayon = "1"
tracing = "0.1"
tracing-appender = "0.2"
tracing-subscriber = "0.3"

[dev-dependencies]
regex = "1"
