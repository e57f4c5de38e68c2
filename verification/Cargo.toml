[package]
name = "vulkan_ubershader_ui_demo"
version = "0.1.0"
edition = "2021"
publish = false

[dependencies]
ash = "0.37"
ash-window = "0.12"
raw-window-handle = "0.5"
winit = { version = "0.29", default-features = false, features = ["rwh_05", "x11", "wayland", "wayland-dlopen"] }
image = { version = "0.24", default-features = false }
rusttype = "0.9"
nalgebra-glm = "0.18"
memoffset = "0.9"
shaderc = "0.8"
