[package]
name = "clipper"
version = "0.1.0"
edition = "2021"
publish = false

[dependencies]
arboard = "3"
fuzzy-matcher = "0.3"
iced = { version = "0.14", default-features = false, features = ["image-without-codecs", "tiny-skia", "tokio", "wayland", "x11"] }
image = { version = "0.25", default-features = false, features = ["png"] }
redb = "2"
x11rb = { version = "0.13", features = ["screensaver"] }
