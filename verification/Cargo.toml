[package]
name = "pixels_of_life"
version = "0.1.0"
edition = "2021"
publish = false

[dependencies]
rand = "0.8"
luminance-front = "*"
luminance-derive = "*"
luminance-windowing = "*"
luminance-glfw = "*"
glfw = "*"
