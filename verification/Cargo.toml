[package]
name = "crowdloan_rewards"
version = "0.1.0"
edition = "2021"
publish = false

[dependencies]
parity-scale-codec = "*"
sp-core = "*"
sp-runtime = "*"
ed25519-dalek = "*"
