[package]
name = "voxel_octree"
version = "0.1.0"
edition = "2021"
publish = false

[dependencies]
ash = "0.37"
ash-window = "0.12"
cgmath = "0.18"
chrono = "0.4"
env_logger = "0.10"
log = "0.4"
nalgebra-glm = "0.18"
raw-window-handle = "0.5"
winit = "0.28"
