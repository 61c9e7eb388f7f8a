[package]
name = "rencounter"
version = "0.1.0"
edition = "2021"
publish = false

[dependencies]
crossterm = "=0.28.1"
image = "=0.25.10"
ocrs = "=0.13.1"
ratatui = "=0.28.1"
rten = "=0.26.0"
serde = { version = "=1.0.229", features = ["derive"] }
serde_json = "=1.0.154"
xcap = "=0.0.15"
