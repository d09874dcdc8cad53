[package]
name = "bicit"
version = "0.1.0"
edition = "2021"
publish = false

[dependencies]
base64 = "*"
anyhow = "*"
clap = { version = "*", features = ["derive"] }
gpx = "*"
geo = "*"
geo-types = "*"
time = "*"
image = { version = "*", default-features = false, features = ["png"] }
resvg = "*"
usvg = "*"
tiny-skia = "*"
