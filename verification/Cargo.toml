[package]
name = "hexae"
version = "0.1.0"
edition = "2021"
publish = false

[dependencies]
lazy_static = "1"
nalgebra = { version = "*", default-features = false, features = ["std"] }
