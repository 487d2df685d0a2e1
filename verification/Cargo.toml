[package]
name = "rc8"
version = "0.1.0"
edition = "2021"
publish = false

[dependencies]
nanorand = "*"
sdl2 = { version = "*", features = ["ttf"] }
clap = { version = "*", features = ["derive"] }
anyhow = "*"
thiserror = "*"
