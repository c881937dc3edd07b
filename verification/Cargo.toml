[package]
name = "ferrite_sfu"
version = "0.1.0"
edition = "2021"
publish = false

[dependencies]
axum = { version = "=0.8.9", features = ["ws"] }
base64 = "=0.22.1"
futures-util = "=0.3.34"
hmac = "=0.12.1"
jsonwebtoken = { version = "=10.4.0", default-features = false, features = ["rust_crypto"] }
reqwest = { version = "=0.12.28", default-features = false }
serde = { version = "=1.0.229", features = ["derive"] }
serde_json = "=1.0.154"
sha2 = "=0.10.9"
str0m = { version = "=0.24.1", default-features = false, features = ["rust-crypto"] }
thiserror = "=2.0.21"
tokio = { version = "=1.54.1", features = ["full"] }
tracing = "=0.1.44"
tracing-subscriber = { version = "=0.3.23", features = ["env-filter"] }
uuid = { version = "=1.29.0", features = ["v4"] }
