[package]
name = "ymir_nodes"
version = "0.1.0"
edition = "2021"
publish = false

[dependencies]
bytemuck = { version = "1", features = ["derive"] }
inventory = "0.3"
rayon = "1"
wgpu = { version = "*", default-features = false, features = ["wgsl"] }
