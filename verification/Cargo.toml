[package]
name = "sozo_migrate"
version = "0.1.0"
edition = "2021"
publish = false

[dependencies]
starknet-core = "*"
starknet-crypto = "*"
cainome-cairo-serde = "*"
colored = "*"
spinoff = "*"
tracing = "*"
