[package]
name = "formula_dispersion"
version = "0.1.0"
edition = "2021"
publish = false

[dependencies]
errorfunctions = "*"
num-complex = "0.4"
numpy = "0.20"
physical_constants = "*"
pyo3 = { version = "0.20", features = ["extension-module"] }
