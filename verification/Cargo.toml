[package]
name = "partty"
version = "0.1.0"
edition = "2021"
publish = false

[dependencies]
base64 = "*"
image = "*"
vte = "*"
serde = { version = "*", features = ["derive"] }
toml = "*"
portable-pty = "*"
winit = "*"
wgpu = "*"
glyphon = "*"
pollster = "*"
sys-locale = "*"
