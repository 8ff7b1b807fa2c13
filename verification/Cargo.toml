[package]
name = "rust_engine"
version = "0.1.0"
edition = "2021"
publish = false

[dependencies]
byteorder = "=1.5.0"
uuid = { version = "=0.8.2", features = ["v4"] }
gfx-hal = "=0.4.1"
gfx-backend-vulkan = "=0.4.3"
winit = "=0.20.0"
nalgebra = "=0.19.0"
alga = "=0.9.3"
image = "=0.22.5"
chrono = "=0.4.45"
glsl-to-spirv = "=0.1.7"
quick-js = "0.4"
