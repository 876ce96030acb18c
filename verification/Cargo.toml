[package]
name = "eval"
version = "0.1.0"
edition = "2021"
publish = false

[dependencies]
anyhow = "1"
chrono = "0.4"
clap = { version = "4", features = ["derive"] }
env_logger = "0.11"
futures = "0.3"
uuid = { version = "1", features = ["v4"] }
