[package]
name = "raven"
version = "0.1.0"
edition = "2021"
publish = false

[dependencies]
anyhow = "=1.0.104"
chrono = "=0.4.45"
clap = { version = "=4.6.7", features = ["derive"] }
dirs = "=7.0.0"
pulldown-cmark = { version = "=0.13.5", default-features = false }
rusqlite = { version = "=0.40.2", features = ["bundled"] }
serde = { version = "=1.0.229", features = ["derive"] }
serde_json = "=1.0.154"
serde_yaml = "=0.9.34"
slug = "=0.1.6"
toml = "=1.1.8"
walkdir = "=2.5.0"

[dev-dependencies]
regex = "1"
