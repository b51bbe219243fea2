[package]
name = "osu_mania"
version = "0.1.0"
edition = "2021"
publish = false

[dependencies]
osu_format = "0.1.1"
glium = "0.36"
image = { version = "0.25", default-features = false, features = ["png", "jpeg"] }
rodio = "0.23"
