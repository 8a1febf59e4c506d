[package]
name = "galaxy_ui"
version = "0.1.0"
edition = "2021"
publish = false

[dependencies]
common-game = "=3.0.0"
crossbeam-channel = "=0.5.17"
eframe = { version = "=0.37.0", default-features = false, features = ["default_fonts", "glow", "x11"] }
