[package]
name = "pyo3_log"
version = "0.1.0"
edition = "2021"
publish = false

[dependencies]
pyo3 = { version = "*", features = ["auto-initialize"] }
log = "*"
arc-swap = "*"
