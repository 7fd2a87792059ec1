[package]
name = "dal"
version = "0.1.0"
edition = "2021"
publish = false

[dependencies]
axum = "0.8"
bincode = "1.3"
futures = "0.3"
openraft = { version = "0.9", features = ["serde", "storage-v2"] }
rocksdb = { version = "0.23", default-features = false }
serde = { version = "1", features = ["derive"] }
serde_json = "1"
thiserror = "2"
tokio = { version = "1", features = ["full"] }
tracing = "0.1"
xxhash-rust = { version = "0.8", features = ["xxh3"] }
zmq = "0.10"
