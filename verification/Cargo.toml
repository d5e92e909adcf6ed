[package]
name = "wetc_buyback_backend"
version = "0.1.0"
edition = "2021"
publish = false

[dependencies]
firestore = "0.32"
futures = "0.3"
gcloud-sdk = "0.20"
hyper = { version = "0.14", features = ["server", "http1", "http2", "tcp", "stream"] }
prost = "0.11"
serde = { version = "1", features = ["derive"] }
serde_json = "1"
tokio = { version = "1", features = ["full"] }
tonic = "0.9"
