[package]
name = "blockchain_maker"
version = "0.1.0"
edition = "2021"
publish = false

[dependencies]
chrono = "0.4"
openssl = "0.10"
serde = { version = "1.0", features = ["derive"] }
serde_json = "1.0"
sha2 = "0.10"
