[package]
name = "world_storage"
version = "0.1.0"
edition = "2021"
publish = false

[dependencies]
base64 = "0.21"
brotli = "*"
flate2 = "1"
parking_lot = "0.12"
redb = "2.1"
rocksdb = "0.22"
surrealkv = "0.3"
thiserror = "1"
tokio = { version = "1", features = ["rt", "rt-multi-thread", "fs"] }
tracing = "0.1"
zstd = "0.13"

[dev-dependencies]
tempfile = "3"
