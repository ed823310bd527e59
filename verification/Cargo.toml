[package]
name = "texture_atlas"
version = "0.1.0"
edition = "2021"
publish = false

[dependencies]
sdl3-sys = "=0.7.2"
