[package]
name = "lsl_viewer"
version = "0.1.0"
edition = "2021"
publish = false

[dependencies]
eframe = { version = "=0.32.3", default-features = false, features = ["glow", "default_fonts", "x11"] }
egui_plot = "=0.33.0"
lsl = "=0.1.1"
