[package]
name = "pycvl"
version = "0.1.0"
edition = "2021"
publish = false

[dependencies]
numpy = "0.18"
pyo3 = "0.18"
