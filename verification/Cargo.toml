[package]
name = "starlume"
version = "0.1.0"
edition = "2021"
publish = false

[dependencies]
encoding_rs = "=0.8.44"
sha2 = "=0.10.9"
hex = "=0.4.3"
url = "=2.5.8"
serde = { version = "=1.0.229", features = ["derive"] }
serde_json = "=1.0.154"
toml = "=1.1.8"
scraper = "*"
chrono = "0.4"
