[package]
name = "randkit"
version = "0.1.0"
edition = "2021"
publish = false

[dependencies]
rand_chacha = { version = "0.9", features = ["os_rng"] }
