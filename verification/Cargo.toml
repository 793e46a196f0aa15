[package]
name = "prototype_voxel_template"
version = "0.1.0"
edition = "2021"
publish = false

[dependencies]
block-mesh = "*"
ndshape = "*"
block-mesh-bgm = "*"
noiz = "*"
serde = { version = "1", features = ["derive"] }
