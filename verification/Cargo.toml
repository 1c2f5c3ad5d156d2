[package]
name = "model_widgets"
version = "0.1.0"
edition = "2021"
publish = false

[dependencies]
egui = "=0.28.1"
rfd = { version = "=0.17.2", default-features = false, features = ["xdg-portal"] }
