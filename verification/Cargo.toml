[package]
name = "ascii_image"
version = "0.1.0"
edition = "2021"
publish = false

[dependencies]
arboard = "3"
base64 = "0.22"
clap = { version = "4", features = ["derive"] }
image = "0.25"
term_size = "0.3"
wsl = "0.1"
