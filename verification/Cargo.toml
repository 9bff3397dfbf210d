[package]
name = "raytracer"
version = "0.1.0"
edition = "2021"
publish = false

[dependencies]
image = { version = "0.24", default-features = false, features = ["png"] }
num_cpus = "1"
threadpool = "1"
sdl2 = "0.35"
