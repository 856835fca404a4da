[package]
name = "rust_study"
version = "0.1.0"
edition = "2021"
publish = false

[dependencies]
mini-redis = "=0.4.1"
tokio = { version = "=1.54.1", features = ["full"] }
tokio-stream = "=0.1.19"
bytes = "=1.12.1"
chrono = { version = "=0.4.45", features = ["serde"] }
serde = { version = "=1.0.229", features = ["derive"] }
serde_json = "=1.0.154"
actix-web = { version = "=4.18.1", features = ["openssl"] }
actix-rt = "=2.15.0"
actix-cors = "=0.7.2"
actix-files = "=0.6.10"
sqlx = { version = "=0.8.6", features = ["postgres", "runtime-tokio", "chrono"] }
dotenv = "=0.15.0"
rand = "=0.8.8"
futures = "=0.3.34"
crossbeam = "=0.8.5"
log = "=0.4.35"
env_logger = "=0.11.11"
derive_more = "=0.99.20"
openssl = "=0.10.82"
