[package]
name = "simple_note"
version = "0.1.0"
edition = "2021"
publish = false

[dependencies]
eframe = { version = "*", default-features = false, features = ["glow", "persistence", "x11", "default_fonts"] }
egui = "*"
log = "*"
serde = { version = "1", features = ["derive"] }
