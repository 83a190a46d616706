[package]
name = "bdf2surface"
version = "0.1.0"
edition = "2021"
publish = false

[dependencies]
bdf = "=0.5.0"
sdl2 = "=0.38.0"
