[package]
name = "gamrs"
version = "0.11.1"
edition = "2021"
publish = false

[dependencies]
ndarray = "0.16"
ndarray-linalg = "0.17"
numpy = "0.24"
pyo3 = { version = "0.24", features = ["extension-module", "abi3-py39"] }
serde = { version = "1", features = ["derive"] }
