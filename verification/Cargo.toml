[package]
name = "s6ui"
version = "0.1.0"
edition = "2021"
publish = false

[dependencies]
ring = "0.17"
flate2 = "1"
zstd = "0.13"
reqwest = { version = "0.12", default-features = false, features = ["blocking", "rustls-tls"] }
tokio = { version = "1", features = ["rt-multi-thread", "sync", "time"] }
serde = { version = "1", features = ["derive"] }
serde_json = "1"
dirs = "5"
memmap2 = "0.9"
