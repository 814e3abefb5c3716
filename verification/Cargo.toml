[package]
name = "nogame"
version = "0.1.0"
edition = "2021"
publish = false

[dependencies]
egui = "=0.37.0"
egui-wgpu = "=0.37.0"
egui-winit = { version = "=0.37.0", default-features = false, features = ["wayland", "x11"] }
glam = { version = "0.33", features = ["bytemuck", "serde"] }
rapier3d = "=0.36.1"
gltf = "=1.4.1"
serde = { version = "=1.0.229", features = ["derive"] }
serde_json = "=1.0.154"
bincode = "=1.3.3"
zstd = "=0.14.3"
bytemuck = { version = "=1.25.2", features = ["derive"] }
rayon = "=1.12.0"
pollster = "=1.0.1"
ctt = "*"
