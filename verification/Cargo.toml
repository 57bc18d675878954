[package]
name = "wator3d"
version = "0.1.0"
edition = "2021"
publish = false

[dependencies]
anyhow = "1"
kiss3d = "0.35"
nalgebra = "0.30"
rand = "0.8"
