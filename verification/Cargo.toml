[package]
name = "lorawan_crypto"
version = "0.1.0"
edition = "2021"
publish = false

[dependencies]
generic-array = "=0.14.7"
lorawan = { version = "=0.9.0", default-features = false, features = ["default-crypto"] }
