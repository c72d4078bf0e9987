[package]
name = "dm_constants"
version = "0.1.0"
edition = "2021"
publish = false

[dependencies]
linked-hash-map = "=0.5.6"
glium = "0.23"
imgui = "=0.0.23"
imgui-glium-renderer = "=0.0.23"
