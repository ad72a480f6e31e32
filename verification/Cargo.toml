[package]
name = "ducat"
version = "0.1.0"
edition = "2021"
publish = false

[dependencies]
ark-bn254 = "=0.4.0"
ark-crypto-primitives = { version = "=0.4.0", features = ["snark"] }
ark-ec = "=0.4.2"
ark-ff = "=0.4.2"
ark-groth16 = "=0.4.0"
ark-relations = "=0.4.0"
ark-std = "=0.4.0"
derive-hex = "=0.1.2"
dusk-bls12_381 = "=0.13.0"
dusk-bytes = "=0.1.7"
dusk-poseidon = "=0.40.0"
once_cell = "=1.21.4"
rand = "=0.8.8"
rs_merkle = "=1.5.0"
serde = { version = "=1.0.229", features = ["derive"] }
serde_json = "=1.0.154"
