[package]
name = "ssz_types"
version = "0.1.0"
edition = "2021"
publish = false

[dependencies]
ethereum_ssz = "=0.10.4"
ethereum_serde_utils = "=0.8.1"
serde = { version = "=1.0.229", features = ["derive"] }
arbitrary = "=1.5.0"
context_deserialize = "=0.2.1"

[dev-dependencies]
serde_json = "=1.0.154"
