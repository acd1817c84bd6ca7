[package]
name = "nox_futura"
version = "0.1.0"
edition = "2021"
publish = false

[dependencies]
parking_lot = "*"
bracket-geometry = "*"
rayon = "*"
dot_vox = "*"
