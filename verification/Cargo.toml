[package]
name = "manifest_core"
version = "0.1.0"
edition = "2021"
publish = false

[dependencies]
const-crypto = "*"
solana-pubkey = { version = "*", features = ["sha2", "curve25519"] }
solana-account-info = "*"
solana-program-error = "*"
spl-token-2022-interface = "*"
spl-token-interface = "*"
