[package]
name = "axyn"
version = "0.1.0"
edition = "2021"
publish = false

[dependencies]
anyhow = "1"
dirs = "4"
futures = "0.3"
hnsw = "0.11"
matrix-sdk = "0.5"
matrix-sdk-sled = "0.1"
mime = "0.3"
quick-error = "2"
rand = "0.8"
serde = { version = "1", features = ["derive"] }
serde_cbor = "0.11"
sled = "0.34"
space = "0.17"
tokio = { version = "1", features = ["macros", "rt-multi-thread", "time"] }
