[package]
name = "unified_launcher"
version = "0.1.0"
edition = "2021"
publish = false

[dependencies]
eframe = { version = "0.31", default-features = false, features = ["default_fonts", "glow", "wayland", "x11"] }
egui = "0.31"
image = { version = "0.25", default-features = false, features = ["png", "jpeg"] }
libc = "0.2"
serde = { version = "1", features = ["derive"] }
toml = "0.8"
