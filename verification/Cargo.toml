[package]
name = "grid_map"
version = "0.1.0"
edition = "2021"
publish = false

[dependencies]
nalgebra = "*"

[dev-dependencies]
rand = "0.8"
rrt = "*"
