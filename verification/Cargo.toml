[package]
name = "retrieval"
version = "0.1.0"
edition = "2021"
publish = false

[dependencies]
url = "=2.5.8"
tokio = { version = "=1.53.2", features = ["full"] }
axum = "=0.8.9"
reqwest = { version = "=0.12.28", default-features = false, features = ["json"] }
serde = { version = "=1.0.229", features = ["derive"] }
serde_json = "=1.0.151"
anyhow = "=1.0.104"
dotenvy = "=0.15.7"
mysql = { version = "=28.0.3", default-features = false, features = ["minimal-rust"] }
futures = "=0.3.34"
