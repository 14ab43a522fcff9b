[package]
name = "range_check"
version = "0.1.0"
edition = "2021"
publish = false

[dependencies]
ff = "0.13"
halo2_proofs = { version = "0.3", default-features = false }
