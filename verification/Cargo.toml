[package]
name = "raytracer"
version = "0.1.0"
edition = "2021"
publish = false

[dependencies]
rand = "0.8"
rand_xoshiro = "0.6"
num-traits = "0.2"
anyhow = "1"
serde = { version = "1", features = ["derive"] }
serde_yaml = "0.9"
clap = { version = "4", features = ["derive"] }
float-cmp = "0.9"
exmex = "*"
image = { version = "0.24", default-features = false, features = ["png"] }
