[package]
name = "aether-cache"
version = "0.1.0"
edition = "2021"
publish = false

[dependencies]
bytes = "1"
crossbeam-queue = "0.3"
hashbrown = "*"
parking_lot = "0.12"
tokio = { version = "1", features = ["io-util", "macros", "net", "rt-multi-thread"] }
