[package]
name = "zhuge_netdiag"
version = "0.1.0"
edition = "2021"
publish = false

[dependencies]
ipconfig = { version = "0.3", default-features = false }
eframe = { version = "0.31", default-features = false, features = ["default_fonts", "glow", "x11"] }
