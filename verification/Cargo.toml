[package]
name = "laser_cutter"
version = "0.1.0"
edition = "2021"
publish = false

[dependencies]
anyhow = "1"
clap = { version = "4", features = ["derive"] }
dialoguer = "*"
serde = { version = "1", features = ["derive"] }
serde_json = "1"
svg = "*"
nalgebra = "*"
base64 = "*"
bitcode = { version = "*", features = ["serde"] }
deflate = "*"
inflate = "*"
image = { version = "*", default-features = false, features = ["png"] }
