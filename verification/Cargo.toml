[package]
name = "nexus_chain"
version = "0.1.0"
edition = "2021"
publish = false

[dependencies]
sha3 = "0.10"
sha2 = "0.10"
blake3 = "1"
ripemd = "0.1"
k256 = { version = "0.13", features = ["ecdsa"] }
num-bigint = "0.4"
ark-bn254 = "0.4"
ark-ec = "0.4"
ark-ff = "0.4"
alloy-rlp = "0.3"
hex = "0.4"
serde = { version = "1", features = ["derive"] }
serde_json = "1"
chrono = "0.4"
rand = "0.8"
