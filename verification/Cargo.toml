[package]
name = "steeldb"
version = "0.1.0"
edition = "2021"
publish = false

[dependencies]
axum = "0.7"
env_logger = "0.11"
lalrpop-util = "0.20"
log = "0.4"
serde = { version = "1", features = ["derive"] }
tokio = { version = "1", features = ["full"] }
