[package]
name = "shaders"
version = "0.1.0"
edition = "2021"
publish = false

[dependencies]
cgmath = "*"
gl = "*"
glfw = "*"
image = "*"
time = "*"
