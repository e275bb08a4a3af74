[package]
name = "pixelroxy"
version = "0.1.0"
edition = "2021"
publish = false

[dependencies]
chrono = "0.4"
env_logger = "0.11"
log = "0.4"
miniz_oxide = "0.8"
uuid = "1"
