[package]
name = "jsonld_signer"
version = "0.1.0"
edition = "2021"
publish = false

[dependencies]
serde_json = "=1.0.154"
ed25519-dalek = "=2.2.0"
base64 = "=0.22.1"
chrono = "=0.4.45"
rand = "=0.8.8"
serde = { version = "=1.0.229", features = ["derive"] }
axum = "=0.7.9"
tokio = { version = "=1.54.1", features = ["rt-multi-thread", "macros", "net"] }
tracing = { version = "0.1", features = ["log"] }
flexi_logger = "*"
