[package]
name = "zkret"
version = "0.1.0"
edition = "2021"
publish = false

[dependencies]
ark-crypto-primitives = { version = "0.4", features = ["crh", "r1cs"] }
ark-ed-on-bls12-381 = { version = "0.4", features = ["r1cs"] }
ark-bls12-381 = "0.4"
ark-ff = "0.4"
ark-ec = "0.4"
ark-serialize = "0.4"
ark-std = "0.4"
ark-groth16 = "0.4"
ark-relations = "0.4"
ark-r1cs-std = "0.4"
serde = { version = "1", features = ["derive"] }
serde_json = "1"
sha2 = "0.10"
rand_core = { version = "0.6", features = ["getrandom"] }
