[package]
name = "hearth_engine"
version = "0.1.0"
edition = "2021"
publish = false

[dependencies]
flate2 = "=1.1.10"
wgpu = "=0.20.1"
image = { version = "0.25", default-features = false }
