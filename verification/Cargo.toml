[package]
name = "rg3d"
version = "0.1.0"
edition = "2021"
publish = false

[dependencies]
rapier3d = "*"
glow = "*"
hound = "*"
