[package]
name = "graphdb"
version = "0.1.0"
edition = "2021"
publish = false

[dependencies]
bincode = { version = "=2.0.1", features = ["derive"] }
dashmap = "6"
memmap2 = "=0.9.12"
oxicode = "=0.2.6"
