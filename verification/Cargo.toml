[package]
name = "zk_login"
version = "0.1.0"
edition = "2021"
publish = false

[dependencies]
anchor-lang = "0.30"
axum = "0.7"
bellman = "0.14"
bincode = "1"
bls12_381 = "0.8"
borsh = { version = "1", features = ["derive"] }
rand = "0.8"
serde = { version = "1", features = ["derive"] }
serde_json = "1"
sha2 = "0.10"
solana-sdk = "1.18"
