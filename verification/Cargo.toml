[package]
name = "tg_anonymizer"
version = "0.1.0"
edition = "2021"
publish = false

[dependencies]
regex = "=1.13.1"
scraper = "=0.29.0"
ego-tree = "=0.11.1"
eframe = { version = "=0.30.0", default-features = false, features = ["default_fonts", "glow", "x11"] }
egui_material_icons = "=0.1.0"
image = { version = "=0.25.10", default-features = false, features = ["png"] }
rfd = "=0.15.4"
