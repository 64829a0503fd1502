[package]
name = "rust_bvh"
version = "0.1.0"
edition = "2021"
publish = false

[dependencies]
cairo-rs = { version = "*", features = ["pdf"] }
