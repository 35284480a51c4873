[package]
name = "logo_scraper"
version = "0.1.0"
edition = "2021"
publish = false

[dependencies]
html5gum = "*"
serde_json = "1"
reqwest = { version = "0.12", default-features = false, features = ["rustls-tls"] }
tokio = { version = "1", features = ["full"] }
