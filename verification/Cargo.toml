[package]
name = "freshet"
version = "0.1.0"
edition = "2021"
publish = false

[dependencies]
pinocchio = "=0.9.3"
solana-pubkey = { version = "2", features = ["curve25519"] }
