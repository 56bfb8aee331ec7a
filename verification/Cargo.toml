[package]
name = "lazy_vulkan"
version = "0.1.0"
edition = "2021"
publish = false

[dependencies]
offset-allocator = "*"
ash = "*"
bytemuck = "*"
