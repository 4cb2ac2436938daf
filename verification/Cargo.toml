[package]
name = "dag_consensus"
version = "0.1.0"
edition = "2021"
publish = false

[dependencies]
sha3 = "0.10"
ed25519-dalek = "2.2"
futures = "0.3"
sled = "0.34"
