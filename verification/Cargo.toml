[package]
name = "hummock"
version = "0.1.0"
edition = "2021"
publish = false

[dependencies]
bytes = "=1.12.1"
comfy-table = { version = "7", default-features = false }
fixedbitset = "0.4"
lru = "=0.12.5"
serde = { version = "1", features = ["derive"] }
serde_json = "1"
xxhash-rust = { version = "=0.8.19", features = ["xxh32", "xxh64"] }
