[package]
name = "obj_translator"
version = "0.1.0"
edition = "2021"
publish = false

[dependencies]
anyhow = "1"
eframe = { version = "0.29", default-features = false, features = ["default_fonts", "glow", "wayland", "x11"] }
env_logger = "0.11"
log = "0.4"
rfd = { version = "0.15", default-features = false, features = ["xdg-portal", "tokio"] }
serde = { version = "1", features = ["derive"] }
serde-xml-rs = "0.6"
walkdir = "2"
