[package]
name = "mesh_orbit"
version = "0.1.0"
edition = "2021"
publish = false

[dependencies]
indicatif = "*"
mesh-rand = "*"
plotters = { version = "0.3", default-features = false, features = ["bitmap_backend", "bitmap_encoder", "bitmap_gif"] }
rand = "0.8"
tobj = "*"
