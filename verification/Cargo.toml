[package]
name = "roi_selector"
version = "0.1.0"
edition = "2021"
publish = false

[dependencies]
anyhow = "1"
eframe = { version = "*", default-features = false, features = ["default_fonts", "glow", "x11", "wayland"] }
egui = { version = "*", default-features = false }
ndarray = "*"
ndarray-npy = { version = "*", default-features = false }
rfd = "*"
tiff = "*"
