[package]
name = "indigo"
version = "0.1.0"
edition = "2021"
publish = false

[dependencies]
wgpu = "0.16"
bytemuck = { version = "1", features = ["derive"] }
nalgebra-glm = "0.18"
raw-window-handle = "0.5"
