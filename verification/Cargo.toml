[package]
name = "evm_rust"
version = "0.1.0"
edition = "2021"
publish = false

[dependencies]
hex = "*"
num-bigint = "*"
sha3 = "*"
clap = { version = "*", features = ["derive"] }
