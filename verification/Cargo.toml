[package]
name = "credential_engine"
version = "0.1.0"
edition = "2021"
publish = false

[dependencies]
keyring = { version = "3", default-features = false }
