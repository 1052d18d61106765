[package]
name = "minesweeper"
version = "0.1.0"
edition = "2021"
publish = false

[dependencies]
rand = "=0.8.8"
eframe = { version = "0.24", default-features = false, features = ["glow", "x11"] }
egui_extras = { version = "0.24", default-features = false, features = ["file", "image"] }
image = { version = "0.24", default-features = false, features = ["png"] }
