[package]
name = "connradar"
version = "0.1.0"
edition = "2021"
publish = false

[dependencies]
chrono = "0.4"
config = { version = "*", default-features = false, features = ["toml"] }
dns-lookup = "*"
ipnet = "2"
serde = { version = "1", features = ["derive"] }
serde_json = "1"
toml = "*"
tracing = "0.1"
tracing-subscriber = "0.3"
