[package]
name = "mpt_update"
version = "0.1.0"
edition = "2021"
publish = false

[dependencies]
ethers-core = "=2.0.14"
halo2_proofs = "=0.3.5"
halo2curves = "=0.10.0"
