[package]
name = "blip25_mbe_py"
version = "0.1.0"
edition = "2021"
publish = false

[dependencies]
pyo3 = "=0.22.6"
numpy = "=0.22.1"
