[package]
name = "openqudit"
version = "0.1.0"
edition = "2021"
publish = false

[dependencies]
num = "*"
serde = { version = "*", features = ["derive"] }
postcard = { version = "*", features = ["alloc"] }
pyo3 = "*"
numpy = "*"
faer = "*"
inventory = "*"
