[package]
name = "tempeh"
version = "0.1.0"
edition = "2021"
publish = false

[dependencies]
async-std = { version = "=1.13.2", features = ["unstable"] }
env_logger = "=0.11.11"
instant = "=0.1.13"
libloading = "=0.9.0"
log = "=0.4.34"
nalgebra = "=0.33.3"
once_cell = "=1.21.4"
rapier2d = "=0.22.0"
winit = "0.28"
