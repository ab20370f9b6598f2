[package]
name = "lsmkv"
version = "0.1.0"
edition = "2021"
publish = false

[dependencies]
anyhow = "1"
bincode = "1.3"
bytes = { version = "1", features = ["serde"] }
chrono = { version = "0.4", default-features = false, features = ["std", "clock"] }
crc32fast = "1"
crossbeam-skiplist = "0.1"
serde = { version = "1", features = ["derive"] }
