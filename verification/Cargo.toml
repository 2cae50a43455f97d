[package]
name = "mario_minesweeper"
version = "0.1.0"
edition = "2021"
publish = false

[dependencies]
rand = "*"
eframe = { version = "0.31", default-features = false, features = ["default_fonts", "glow", "x11"] }
image = { version = "0.25", default-features = false, features = ["ico"] }
