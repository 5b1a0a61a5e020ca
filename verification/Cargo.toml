[package]
name = "lazy_storage"
version = "0.1.0"
edition = "2021"
publish = false

[dependencies]
ink_primitives = "=3.0.1"
ink_prelude = "=3.0.1"
parity-scale-codec = { version = "3", features = ["derive"] }
typenum = "1"
