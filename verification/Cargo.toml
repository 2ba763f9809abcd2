[package]
name = "particles"
version = "0.1.0"
edition = "2021"
publish = false

[dependencies]
winit = "0.30"
glam = "0.29"
bytemuck = { version = "1", features = ["derive"] }
