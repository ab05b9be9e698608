[package]
name = "tensor_template"
version = "0.1.0"
edition = "2021"
publish = false

[dependencies]
tera = "=1.20.1"

[dev-dependencies]
half = "=2.7.1"
