[package]
name = "treevolution"
version = "0.1.0"
edition = "2021"
publish = false

[dependencies]
macroquad = { version = "0.4", default-features = false }
ndarray = "0.16"
rand = "0.9"
rayon = "1"
