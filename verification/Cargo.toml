[package]
name = "voxel_engine"
version = "0.1.0"
edition = "2021"
publish = false

[dependencies]
noise = "0.9"
anyhow = "1"
bytemuck = { version = "1", features = ["derive"] }
cgmath = "0.18"
env_logger = "0.11"
image = "0.25"
log = "0.4"
pollster = "0.4"
wgpu = "25"
winit = "0.30"
