[package]
name = "reclass"
version = "0.9.1"
edition = "2021"
publish = false

[dependencies]
anyhow = "=1.0.104"
crossterm = "=0.29.0"
eframe = { version = "=0.37.0", default-features = false, features = ["default_fonts", "glow", "x11"] }
libc = "=0.2.191"
libloading = "=0.9.0"
parking_lot = "=0.12.5"
ratatui = { version = "=0.30.2", default-features = false, features = ["crossterm"] }
ron = "=0.12.3"
serde = { version = "=1.0.229", features = ["derive"] }
serde_json = "=1.0.154"
tiny_http = "=0.12.0"
