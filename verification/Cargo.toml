[package]
name = "wyrm"
version = "0.1.0"
edition = "2021"
publish = false

[dependencies]
smallvec = "1"
ndarray = { version = "0.15", default-features = false, features = ["std"] }
