[package]
name = "pbr_texture_generation"
version = "0.1.0"
edition = "2021"
publish = false

[dependencies]
image = "=0.25.10"
indicatif = { version = "=0.18.6", features = ["rayon"] }
nalgebra = "=0.35.0"
noise = "=0.9.0"
rayon = "=1.12.0"
