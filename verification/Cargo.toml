[package]
name = "crosshair"
version = "0.1.0"
edition = "2021"
publish = false

[dependencies]
eframe = { version = "=0.37.0", default-features = false, features = ["glow", "wayland", "x11", "default_fonts"] }
winit = { version = "=0.30.13", default-features = false, features = ["x11", "wayland"] }
smithay-client-toolkit = { version = "=0.19.2", default-features = false }
