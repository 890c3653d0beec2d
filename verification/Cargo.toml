[package]
name = "fastsearch"
version = "0.1.0"
edition = "2021"
publish = false

[dependencies]
regex = "=1.13.1"
serde = { version = "=1.0.229", features = ["derive"] }
serde_json = "=1.0.154"
ntfs = "=0.4.0"
systemstat = "*"
humantime = "*"
