[package]
name = "miden-client"
version = "0.16.0"
edition = "2021"
rust-version = "1.95"
publish = false

[dependencies]
miden-protocol = { version = "=0.15.3", default-features = false }
miden-standards = { version = "=0.15.3", default-features = false }
tonic = { version = "0.14", default-features = false }
async-trait = "0.1"
tokio = { version = "1", default-features = false, features = ["time"] }
futures = { version = "0.3", default-features = false, features = ["alloc"] }
anyhow = "1"
uuid = { version = "1", features = ["v4"] }
