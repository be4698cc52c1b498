[package]
name = "netblame"
version = "0.1.0"
edition = "2021"
publish = false

[dependencies]
hickory-resolver = "=0.24.4"
openssl = "0.10"
reqwest = "=0.12.28"
serde = { version = "1", features = ["derive"] }
tokio = { version = "1", features = ["full"] }
