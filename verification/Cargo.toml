[package]
name = "virtual_texture"
version = "0.1.0"
edition = "2021"
publish = false

[dependencies]
md-5 = "*"
