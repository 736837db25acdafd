[package]
name = "voting_service"
version = "0.1.0"
edition = "2021"
publish = false

[dependencies]
ed25519-dalek = "2"
exonum = "=0.9.7"
exonum-configuration = "=0.9.3"
failure = "=0.1.8"
serde = "=1.0.229"
serde_derive = "=1.0.229"
serde_json = "=1.0.154"
sha2 = "0.10"
