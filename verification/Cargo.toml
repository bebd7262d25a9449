[package]
name = "backend_lib"
version = "0.1.0"
edition = "2021"
publish = false

[dependencies]
argon2 = "0.5"
password-hash = { version = "0.5", features = ["rand_core"] }
rand = "0.8"
tokio = { version = "1", features = ["full"] }
tokio-tungstenite = "*"
futures = "0.3"
serde = { version = "1", features = ["derive"] }
serde_json = "1"
log = "0.4"
env_logger = "0.11"
parking_lot = "0.12"
