[package]
name = "log_viewer"
version = "0.1.0"
edition = "2021"
publish = false

[dependencies]
chrono = { version = "=0.4.45", features = ["serde"] }
elasticsearch = "8.5.0-alpha.1"
env_logger = "=0.7.1"
heck = "=0.3.3"
log = { version = "=0.4.34", features = ["serde"] }
serde = { version = "=1.0.229", features = ["derive"] }
serde_json = "=1.0.154"
tokio = { version = "1", features = ["full"] }
warp = "0.3"
