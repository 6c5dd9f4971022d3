[package]
name = "named_locks"
version = "0.1.0"
edition = "2021"
publish = false

[dependencies]
actix-web = "*"
env_logger = "*"
serde = { version = "*", features = ["derive"] }
