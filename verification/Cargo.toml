[package]
name = "pmarket"
version = "0.1.0"
edition = "2021"
publish = false

[dependencies]
bigdecimal = "0.4"
chrono = "0.4"
diesel = { version = "2", features = ["postgres", "numeric", "chrono"] }
pyo3 = "*"
serde_json = "1"
