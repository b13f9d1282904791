[package]
name = "chip8"
version = "0.1.0"
edition = "2021"
publish = false

[dependencies]
rand = "0.8"
winit = "0.24"
winit_input_helper = "0.9"
pixels = "0.2"
rodio = { version = "0.13", default-features = false }
