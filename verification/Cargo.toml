[package]
name = "clob"
version = "0.1.0"
edition = "2021"
publish = false

[dependencies]
anyhow = "1"
clap = { version = "4", features = ["derive"] }
serde = { version = "1", features = ["derive"] }
serde_json = "1"
solana-instruction = "2"
solana-keypair = "2"
solana-pubkey = { version = "2", features = ["curve25519"] }
solana-signer = "2"
solana-system-interface = { version = "1", features = ["bincode"] }

[dev-dependencies]
spl-token = "8"
