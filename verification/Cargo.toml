[package]
name = "peek"
version = "0.1.0"
edition = "2021"
publish = false

[dependencies]
anyhow = "*"
arboard = "*"
crossterm = "*"
dirs = "*"
env_logger = "*"
log = "*"
ratatui = "*"
serde = { version = "*", features = ["derive"] }
serde_yaml = "*"
