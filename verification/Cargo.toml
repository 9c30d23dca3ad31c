[package]
name = "broadcast_enc"
version = "0.1.0"
edition = "2021"
publish = false

[dependencies]
ark-ec = "0.4"
ark-ff = "0.4"
ark-bls12-381 = "0.4"
rand = "0.8"
