[package]
name = "sagacraft_rs"
version = "0.1.0"
edition = "2021"
publish = false

[dependencies]
serde = { version = "1", features = ["derive"] }
serde_json = "1"
chrono = "0.4"
rand = "0.8"
anyhow = "1"
crossterm = "0.28"
ratatui = "0.29"
