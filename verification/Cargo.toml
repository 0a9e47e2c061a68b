[package]
name = "rust_transformers"
version = "0.1.0"
edition = "2021"
publish = false

[dependencies]
regex = "=1.13.1"
pyo3 = "0.22"
serde_json = "1"
