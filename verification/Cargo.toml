[package]
name = "auger"
version = "0.1.0"
edition = "2021"
publish = false

[dependencies]
serde = { version = "=1.0.229", features = ["derive"] }
serde_json = "=1.0.154"
yash-syntax = "=0.21.0"
unicode-width = "=0.2.3"
similar = "=2.7.0"
uuid = { version = "=1.29.0", features = ["v4", "v7"] }
chrono = { version = "=0.4.45", default-features = false, features = ["clock"] }
comrak = { version = "=0.59.0", default-features = false }
scraper = "=0.29.0"
ego-tree = "=0.11.1"
syntect = { version = "=5.3.0", default-features = false, features = ["default-fancy"] }
ratatui = "=0.30.2"
crossterm = "=0.29.0"
tokio = { version = "=1.54.1", features = ["full"] }
reqwest = { version = "=0.12.28", default-features = false, features = ["json", "stream", "rustls-tls"] }
futures = "=0.3.34"
ignore = "=0.4.34"
grep = "=0.4.1"
anyhow = "=1.0.104"
