[package]
name = "vpai"
version = "0.1.0"
edition = "2021"
publish = false

[dependencies]
indexmap = { version = "2", features = ["serde"] }
serde = { version = "1", features = ["derive"] }
serde_json = "1"
flate2 = "1"
tar = "0.4"
minify = "1"
reqwest = { version = "0.11", features = ["blocking"] }
tokio = { version = "1", features = ["rt", "macros"] }
futures = "0.3"
log = "0.4"
env_logger = "0.10"
percent-encoding = "2"
