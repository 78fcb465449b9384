[package]
name = "voxel_world"
version = "0.1.0"
edition = "2021"
publish = false

[dependencies]
hashbrown = "0.14"
noise = "0.9"
rand = "0.8"
