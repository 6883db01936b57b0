[package]
name = "ambermap"
version = "0.1.0"
edition = "2021"
publish = false

[dependencies]
byteorder = "1"
flate2 = "1"
snap = "1"
zstd = "0.13"
image = { version = "0.25", default-features = false, features = ["png", "webp"] }
rayon = "1"
clap = { version = "4", features = ["derive"] }
thiserror = "1"
tiny_http = "0.12"
