[package]
name = "waterwheel"
version = "0.1.0"
edition = "2021"
publish = false

[dependencies]
xxhash-rust = { version = "=0.8.19", features = ["xxh3"] }
humantime = "=2.1.0"
chrono = "=0.4.45"
cron = "=0.17.0"
binary-heap-plus = "=0.5.0"
rand = "=0.8.8"
regex-syntax = "=0.8.11"
uuid = { version = "=1.29.0", features = ["v4", "serde"] }
jsonwebtoken = "=9.3.1"
serde = { version = "=1.0.229", features = ["derive"] }
serde_json = { version = "=1.0.154", features = ["preserve_order"] }
anyhow = "=1.0.104"
thiserror = "=1.0.69"
tokio = { version = "=1.54.1", features = ["full"] }
tracing = "=0.1.44"
config = { version = "=0.13.4", default-features = false, features = ["toml"] }
