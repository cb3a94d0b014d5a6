[package]
name = "helix_render"
version = "0.1.0"
edition = "2021"
publish = false

[dependencies]
glam = "*"
pyo3 = "0.20"
