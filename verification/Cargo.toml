[package]
name = "patch_browser"
version = "0.1.0"
edition = "2021"
publish = false

[dependencies]
midir = "0.10"
serde = { version = "1", features = ["derive"] }
egui = "0.29"
egui_extras = { version = "0.29", default-features = false }
