[package]
name = "surfer"
version = "0.1.0"
edition = "2021"
publish = false

[dependencies]
camino = "1.1"
color-eyre = "0.6"
itertools = "0.11"
pyo3 = "0.20"
