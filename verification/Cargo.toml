[package]
name = "cmdkit"
version = "0.1.0"
edition = "2021"
publish = false

[dependencies]
futures-channel = "0.3"
crossbeam-channel = "0.5"

[dev-dependencies]
futures-executor = "0.3"
