[package]
name = "fastxml"
version = "0.1.0"
edition = "2021"
publish = false

[dependencies]
rustc-hash = "2"
smallvec = "1"
