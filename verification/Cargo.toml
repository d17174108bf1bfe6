[package]
name = "gdsr"
version = "0.1.0"
edition = "2021"
publish = false

[dependencies]
bytemuck = "*"
chrono = "*"
clipper2 = "*"
tempfile = "*"
