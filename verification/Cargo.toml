[package]
name = "eu_test_data_generator"
version = "0.1.0"
edition = "2021"
publish = false

[dependencies]
rand = "0.8"
eframe = { version = "*", default-features = false, features = ["default_fonts", "glow", "x11"] }
