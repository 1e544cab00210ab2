[package]
name = "railstore"
version = "0.1.0"
edition = "2021"
publish = false

[dependencies]
sled = "0.34"
serde_cbor = "0.11"
anyhow = "1"
serde = "1"
