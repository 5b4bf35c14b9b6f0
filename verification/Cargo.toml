[package]
name = "json_comments"
version = "0.1.0"
edition = "2021"
publish = false

[dependencies]
pyo3 = "=0.29.3"
