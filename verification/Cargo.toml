[package]
name = "archer_jup"
version = "0.1.0"
edition = "2021"
publish = false

[dependencies]
archer-sdk = "=0.1.0"
bytemuck = { version = "=1.25.2", features = ["extern_crate_alloc"] }
rust_decimal = "=1.43.0"
solana-account = "=2.2.1"
solana-program = "=2.3.0"
solana-pubkey = { version = "=2.4.0", features = ["curve25519"] }
spl-token-2022 = { version = "=8.0.1", features = ["no-entrypoint"] }
thiserror = "=1.0.69"

[dev-dependencies]
rand = "=0.9.5"
