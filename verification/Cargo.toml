[package]
name = "wgpu_prefix_sum"
version = "0.1.0"
edition = "2021"
publish = false

[dependencies]
anyhow = "=1.0.104"
bytemuck = { version = "=1.25.2", features = ["extern_crate_alloc"] }
pollster = "=1.0.1"
wgpu = "=28.0.0"
