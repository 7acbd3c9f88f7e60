[package]
name = "kv_router"
version = "0.1.0"
edition = "2021"
publish = false

[dependencies]
anyhow = "1"
async-stream = "0.3"
async-trait = "0.1"
axum = { version = "0.8", default-features = false, features = ["http1", "json"] }
bytemuck = "1"
either = "1"
futures = "0.3"
minijinja = { version = "2", features = ["json"] }
opentelemetry = { version = "0.31", features = ["logs"] }
opentelemetry-otlp = { version = "0.31", features = ["logs", "grpc-tonic", "http-proto"] }
opentelemetry_sdk = { version = "0.31", features = ["logs"] }
parking_lot = "0.12"
prometheus = { version = "0.14", default-features = false }
rayon = "1"
rmp-serde = "1"
rustc-hash = "2"
serde = { version = "1", features = ["derive"] }
serde_json = { version = "1", features = ["preserve_order"] }
thiserror = "2"
tokio = { version = "1", features = ["sync", "rt", "macros", "time"] }
tokio-util = "0.7"
tracing = "0.1"
xxhash-rust = { version = "0.8", features = ["xxh3"] }
