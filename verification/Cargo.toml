[package]
name = "isac"
version = "0.1.0"
edition = "2021"
publish = false

[dependencies]
rand = "=0.9.5"
chrono = "=0.4.45"
lru = "=0.12.5"
serde = { version = "=1.0.229", features = ["derive"] }
serde_json = "=1.0.154"
regex = "=1.13.1"
