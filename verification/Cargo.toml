[package]
name = "sticky"
version = "0.1.0"
edition = "2021"
publish = false

[dependencies]
anyhow = "=1.0.104"
chrono = { version = "=0.4.45", features = ["serde"] }
clap = { version = "=4.6.7", features = ["derive"] }
crossterm = "=0.28.1"
dirs = "=5.0.1"
glib = "=0.20.12"
gtk4 = "=0.9.7"
markdown = "=1.0.0"
ratatui = "=0.29.0"
regex = "=1.13.1"
serde = { version = "=1.0.229", features = ["derive"] }
toml = "=0.8.23"
uuid = { version = "=1.29.0", features = ["v4"] }

[dev-dependencies]
tempfile = "=3.27.0"
