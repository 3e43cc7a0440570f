[package]
name = "voxel_chunks"
version = "0.1.0"
edition = "2021"
publish = false

[dependencies]
snap = "*"
lz4 = "*"
ncollide3d = "*"
