[package]
name = "embedcache"
version = "0.1.1"
edition = "2021"
publish = false

[dependencies]
blake3 = "1"
redb = "2"
serde = { version = "1", features = ["derive"] }
thiserror = "2"
pyo3 = { version = "0.23", features = ["abi3-py310"] }
numpy = "0.23"
