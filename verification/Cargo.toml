[package]
name = "vislumino"
version = "0.1.0"
edition = "2021"
publish = false

[dependencies]
cgmath = "0.18"
configparser = "3"
crossbeam = "0.8"
dirs = "4"
image = { version = "0.24", default-features = false, features = ["bmp", "png", "tiff"] }
