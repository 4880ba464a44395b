[package]
name = "zkevm_core"
version = "0.1.0"
edition = "2021"
publish = false

[dependencies]
halo2curves = "*"
ethers-core = "*"
halo2_proofs = "*"
