[package]
name = "incremental_esdf"
version = "0.1.0"
edition = "2021"
publish = false

[dependencies]
num-integer = "0.1"
nalgebra = "0.32"
bytemuck = { version = "1", features = ["derive"] }
image = { version = "0.25", default-features = false, features = ["png", "gif"] }
imageproc = { version = "0.25", default-features = false }
ab_glyph = "0.2"
wgpu = { version = "0.19", default-features = false, features = ["wgsl"] }
futures = "0.3"
firestorm = "0.5"
