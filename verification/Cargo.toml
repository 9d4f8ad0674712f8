[package]
name = "waygraph"
version = "0.1.0"
edition = "2021"
publish = false

[dependencies]
freetype-rs = "*"
gl = "*"
memmap2 = "*"
wayland-client = "*"
wayland-protocols-wlr = { version = "*", features = ["client"] }
