[package]
name = "rust_pathfinding"
version = "0.1.0"
edition = "2021"

[dependencies]
image = "0.24"
imageproc = "0.23"
rusttype = "0.9"
pathfinding = "*"
