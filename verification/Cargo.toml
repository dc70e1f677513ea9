[package]
name = "ratio"
version = "0.1.0"
edition = "2021"
publish = false

[dependencies]
exprz = { version = "=0.0.14", features = ["alloc"] }
