[package]
name = "ankerstatus"
version = "0.1.0"
edition = "2021"
publish = false

[dependencies]
aes = "*"
anyhow = "1"
axum = "*"
btleplug = "*"
cbc = "*"
chrono = "0.4"
cipher = { version = "*", features = ["block-padding"] }
clap = { version = "4", features = ["derive"] }
crossterm = "*"
env_logger = "*"
futures = "0.3"
ratatui = "*"
serde = { version = "1", features = ["derive"] }
tokio = { version = "1", features = ["full"] }
uuid = "1"
