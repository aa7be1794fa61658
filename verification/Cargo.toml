[package]
name = "nebula"
version = "0.1.0"
edition = "2021"
publish = false

[dependencies]
soroban-sdk = { version = "=20.5.0", features = ["testutils"] }
derive_arbitrary = "=1.3.2"
rand = { version = "=0.8.5", default-features = false, features = ["small_rng"] }
