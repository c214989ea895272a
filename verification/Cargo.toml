[package]
name = "langviewer"
version = "0.1.0"
edition = "2021"
publish = false

[dependencies]
iced = { version = "0.14", features = ["canvas"] }
rstar = "0.12"
log = "0.4"
env_logger = { version = "0.11", default-features = false }
