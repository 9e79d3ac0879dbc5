[package]
name = "eidos"
version = "0.1.0"
edition = "2021"
publish = false

[dependencies]
keyframe = "1"
keyframe_derive = "1"
nalgebra = "*"
resvg = "*"
svg = "*"
ttf-noto-sans = "*"
