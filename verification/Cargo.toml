[package]
name = "audio_analyzer"
version = "0.1.0"
edition = "2021"
publish = false

[dependencies]
cpal = "0.15"
eframe = { version = "*", default-features = false, features = ["glow", "default_fonts", "x11"] }
egui_plot = "*"
rustfft = "6"
