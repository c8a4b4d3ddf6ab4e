[package]
name = "invman"
version = "0.1.0"
edition = "2021"
publish = false

[dependencies]
uuid = { version = "=1.29.0", features = ["v7", "serde"] }
time = { version = "=0.3.55", features = ["serde"] }
serde = { version = "=1.0.229", features = ["derive"] }
toml = "=0.8.23"
anyhow = "=1.0.104"
headless_chrome = "=0.9.0"
