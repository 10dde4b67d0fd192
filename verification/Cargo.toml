[package]
name = "mesh_engine"
version = "0.1.0"
edition = "2021"
publish = false

[dependencies]
glam = "*"
bytemuck = "=1.25.2"
