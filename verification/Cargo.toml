[package]
name = "eipi"
version = "0.1.0"
edition = "2021"
publish = false

[dependencies]
anyhow = "1"
axum = "*"
chrono = "0.4"
crossterm = "*"
env_logger = "*"
log = "0.4"
parking_lot = "0.12"
rand = "*"
ratatui = "*"
rusqlite = { version = "*", features = ["bundled"] }
russh = "*"
sha2 = "*"
tokio = { version = "1", features = ["full"] }
