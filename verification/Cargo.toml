[package]
name = "r1cs_nark_as"
version = "0.1.0"
edition = "2021"
publish = false

[dependencies]
blake2 = "*"
digest = "*"
rand = "*"
