[package]
name = "ddgr"
version = "0.1.0"
edition = "2021"
publish = false

[dependencies]
reqwest = { version = "0.12", default-features = false, features = ["blocking", "rustls-tls", "gzip"] }
scraper = "*"
roxmltree = "*"
html-escape = "*"
url = "2"
serde = { version = "1", features = ["derive"] }
serde_json = "1"
thiserror = "*"
toon = "*"
clap = { version = "4", features = ["derive"] }
