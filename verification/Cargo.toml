[package]
name = "beammm_gui"
version = "0.1.0"
edition = "2021"
publish = false

[dependencies]
beammm = "=0.1.0"
eframe = { version = "0.29", default-features = false, features = ["glow"] }
egui = { version = "0.29", default-features = false }
egui_extras = { version = "0.29", default-features = false }
env_logger = { version = "0.11", default-features = false }
