[package]
name = "kor_engine"
version = "0.1.0"
edition = "2021"
publish = false

[dependencies]
gltf = "1"
winit = "0.28"
