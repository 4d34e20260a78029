[package]
name = "dmd_render"
version = "0.1.0"
edition = "2021"
publish = false

[dependencies]
image = "=0.24.9"
imageproc = "=0.23.1"
rusttype = "=0.9.3"
ttf-parser = "=0.15.2"
chrono = "=0.4.45"
clap = { version = "=4.6.7", features = ["derive"] }
