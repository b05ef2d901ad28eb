[package]
name = "strike_wallet"
version = "0.1.0"
edition = "2021"
publish = false

[dependencies]
solana-program = "*"

[dev-dependencies]
sha2 = "*"
