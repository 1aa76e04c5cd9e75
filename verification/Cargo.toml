[package]
name = "exruster"
version = "0.1.0"
edition = "2021"
publish = false

[dependencies]
anyhow = "1"
bytemuck = { version = "1", features = ["derive"] }
dashmap = "6"
exr = "1"
glam = "*"
image = { version = "*", default-features = false, features = ["png", "hdr"] }
itertools = "*"
lru = "*"
memmap2 = "*"
num_cpus = "1"
pollster = "*"
rayon = "1"
serde = { version = "1", features = ["derive"] }
tiff = "*"
