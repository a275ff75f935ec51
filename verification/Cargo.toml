[package]
name = "bwoc_chat"
version = "0.1.0"
edition = "2021"
publish = false

[dependencies]
eframe = { version = "0.29", default-features = false, features = ["default_fonts", "glow", "x11", "wayland"] }
egui_commonmark = "0.18"
serde_json = "1"
