[package]
name = "ferrum"
version = "0.1.0"
edition = "2021"
publish = false

[dependencies]
pyo3 = "0.22"
