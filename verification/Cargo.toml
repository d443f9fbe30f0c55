[package]
name = "mev_graphics_tutorial"
version = "0.1.0"
edition = "2021"
publish = false

[dependencies]
glam = "*"
