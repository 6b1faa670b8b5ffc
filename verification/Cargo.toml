[package]
name = "token_scan"
version = "0.1.0"
edition = "2021"
publish = false

[dependencies]
anyhow = "*"
clap = { version = "*", features = ["derive"] }
futures = "*"
mpl-token-metadata = "=4.1.2"
solana-sdk = "=1.18.26"
tokio = { version = "*", features = ["rt-multi-thread", "macros"] }
