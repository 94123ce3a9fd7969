[package]
name = "app_focus"
version = "0.1.0"
edition = "2021"
publish = false

[dependencies]
anyhow = "1"
clap = { version = "4", features = ["derive"] }
env_logger = "0.11"
log = "0.4"
wayland-client = "0.31"
wayland-protocols = { version = "0.32", features = ["client", "staging"] }
cosmic-protocols = "*"
