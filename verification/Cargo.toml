[package]
name = "aurora_forwarder"
version = "0.1.0"
edition = "2021"
publish = false

[dependencies]
near-sdk-env = "*"
bs58 = "*"

[dev-dependencies]
borsh = "*"
hex = "*"
