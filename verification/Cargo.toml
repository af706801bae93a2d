[package]
name = "nitro_attestation"
version = "0.1.0"
edition = "2021"
publish = false

[dependencies]
p384 = { version = "=0.13.1", default-features = false, features = ["ecdsa", "std"] }
alloy-primitives = { version = "=1.7.3", default-features = false }
