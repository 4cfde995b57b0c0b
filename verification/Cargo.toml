[package]
name = "mem-cli"
version = "0.0.1"
edition = "2021"
publish = false

[dependencies]
anyhow = "=1.0.104"
dirs = "=7.0.0"
fastembed = { version = "=5.17.4", default-features = false, features = ["ort-load-dynamic", "hf-hub-rustls-tls"] }
libc = "=0.2.191"
rusqlite = { version = "=0.41.1", features = ["bundled"] }
serde = { version = "=1.0.229", features = ["derive"] }
serde_json = "=1.0.154"
uuid = { version = "=1.29.0", features = ["v7"] }
