[package]
name = "chunky"
version = "0.1.0"
edition = "2021"
publish = false

[dependencies]
flate2 = "=1.1.10"
byteorder = "=1.5.0"
anyhow = "=1.0.104"
glam = "0.28"
rayon = "=1.12.0"
tobj = "=4.0.5"
gltf = { version = "=1.4.1", default-features = false, features = ["import", "utils", "names"] }
image = { version = "=0.25.10", default-features = false, features = ["png", "jpeg"] }
