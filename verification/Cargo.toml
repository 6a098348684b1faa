[package]
name = "alpenglow"
version = "0.3.0"
edition = "2021"
publish = false

[dependencies]
stateright = "*"
env_logger = "*"
serde = { version = "1", features = ["derive"] }
