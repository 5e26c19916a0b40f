[package]
name = "asterism"
version = "0.1.0"
edition = "2021"
publish = false

[dependencies]
macroquad = "=0.3.26"
winit = "=0.24.0"
winit_input_helper = "=0.9.0"
glam = "=0.13.1"
ultraviolet = "=0.8.1"
anycollections = "=0.2.0"
serde = { version = "1", features = ["derive"] }
serde_json = "1"
