[package]
name = "nix_engine"
version = "0.1.0"
edition = "2021"
publish = false

[dependencies]
bytemuck = { version = "=1.25.2", features = ["derive"] }
fixed = "=1.31.0"
hypertree = "=1.0.0"
sha2 = "=0.11.1"
solana-program = "=2.0.25"
spl-token = "=6.0.0"
spl-token-2022 = "=5.0.2"
thiserror = "=2.0.21"
