[package]
name = "twlaw_core"
version = "0.1.0"
edition = "2021"
publish = false

[dependencies]
url = "2"
percent-encoding = "2"
regex = "1"
scraper = "*"
serde = { version = "1", features = ["derive"] }
serde_json = "1"
clap = { version = "4", features = ["derive"] }
reqwest = { version = "0.12", default-features = false, features = ["blocking", "json", "rustls-tls"] }
csv = "1"
flate2 = "1"
zip = { version = "*", default-features = false, features = ["deflate"] }
chrono = { version = "0.4", default-features = false, features = ["clock", "std"] }
thiserror = "*"
