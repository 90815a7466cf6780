[package]
name = "minesweeper"
version = "0.1.0"
edition = "2021"
publish = false

[dependencies]
rand = "0.9"
glam = "0.30"
wgpu = "24"
winit = "0.29"
image = { version = "0.25", default-features = false, features = ["png"] }
anyhow = "1"
pollster = "0.3"
bytemuck = { version = "1", features = ["derive"] }
env_logger = "0.11"
log = "0.4"
