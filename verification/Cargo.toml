[package]
name = "zklogin_bridge"
version = "0.1.0"
edition = "2021"
publish = false

[dependencies]
ark-bls12-381 = "0.3"
ark-ec = "0.3"
ark-ff = "0.3"
ark-serialize = "0.3"
ark-bn254 = "0.4"
light-poseidon = "0.2"
num-bigint = "0.4"
blake2b_simd = "1"
base64ct = "1"
blst = "0.3"
serde = { version = "1", features = ["derive"] }
serde_json = "1"
reqwest = { version = "0.11", default-features = false, features = ["json"] }
