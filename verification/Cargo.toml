[package]
name = "dbz"
version = "0.1.0"
edition = "2021"
publish = false

[dependencies]
anyhow = "=1.0.104"
crossterm = "=0.29.0"
image = { version = "=0.25.10", default-features = false, features = ["webp"] }
ratatui = "=0.30.2"
ratatui-image = { version = "=1.0.5", default-features = false, features = ["crossterm"] }
regex = "=1.13.1"
reqwest = { version = "=0.12.28", default-features = false, features = ["blocking", "rustls-tls"] }
scraper = "=0.20.0"
serde = { version = "=1.0.229", features = ["derive"] }
serde_json = "=1.0.154"
