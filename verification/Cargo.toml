[package]
name = "holefetch"
version = "0.1.0"
edition = "2021"
publish = false

[dependencies]
clap = { version = "=4.6.7", features = ["derive"] }
color-thief = "=0.2.2"
colored = "=3.1.1"
image = { version = "=0.25.10", default-features = false, features = ["rayon", "bmp", "dds", "exr", "ff", "gif", "hdr", "ico", "jpeg", "png", "pnm", "qoi", "tga", "tiff", "webp"] }
serde = { version = "=1.0.229", features = ["derive"] }
sysinfo = "=0.40.1"
toml = "=1.2.1"
