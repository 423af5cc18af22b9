[package]
name = "snark_core"
version = "0.1.0"
edition = "2021"
publish = false

[dependencies]
ark-bls12-381 = "=0.4.0"
ark-ff = "=0.4.2"
ark-groth16 = "=0.4.0"
ark-relations = "=0.4.0"
ark-snark = "=0.4.0"
ark-std = "=0.4.0"
