[package]
name = "frext"
version = "0.1.0"
edition = "2021"
publish = false

[dependencies]
regex = "1"
serde = { version = "1", features = ["derive"] }
serde_json = "1"
thiserror = "2"
directories = "6"
trash = "5"
arboard = { version = "3", default-features = false }
fontdb = { version = "0.23", default-features = false, features = ["std", "fs"] }
ttf-parser = "0.25"
log = "0.4"
env_logger = { version = "0.11", default-features = false }
eframe = { version = "=0.35.0", default-features = false, features = ["glow", "x11", "default_fonts"] }
egui = "=0.35.0"
egui_extras = { version = "=0.35.0", features = ["syntect"] }
