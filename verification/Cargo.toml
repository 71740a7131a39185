[package]
name = "autoindex"
version = "0.1.0"
edition = "2021"
publish = false

[dependencies]
url = "*"
chrono = "*"
scraper = "*"
serde = { version = "*", features = ["derive"] }
toml = "*"
log = "*"
env_logger = "*"
anyhow = "*"
reqwest = { version = "*", default-features = false, features = ["blocking"] }
