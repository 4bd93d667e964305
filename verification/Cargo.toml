[package]
name = "pow_chain"
version = "0.1.0"
edition = "2021"
publish = false

[dependencies]
chrono = "0.4"
ed25519-dalek = "2"
hex = "0.4"
rand = "0.8"
serde = { version = "1", features = ["derive"] }
serde_json = "1"
sha2 = "0.10"
