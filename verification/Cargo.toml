[package]
name = "snake"
version = "0.1.0"
edition = "2021"
publish = false

[dependencies]
rand = "=0.8.8"
bytemuck = { version = "1", features = ["derive"] }
env_logger = "0.10"
pollster = "0.3"
