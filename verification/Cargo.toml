[package]
name = "field_export"
version = "0.1.0"
edition = "2021"
publish = false

[dependencies]
num-bigint = "=0.4.8"
serde = "=1.0.229"
serde_json = { version = "=1.0.154", features = ["preserve_order"] }
plonky2 = "=1.1.0"
ark-bn254 = "=0.5.0"
ark-ff = "=0.5.0"
ark-ed-on-bls12-381 = "=0.5.0"
ark-crypto-primitives = { version = "=0.5.0", features = ["crh", "r1cs", "sponge"] }
ark-r1cs-std = "=0.5.0"
ark-relations = "=0.5.1"
