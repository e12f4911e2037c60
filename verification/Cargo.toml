[package]
name = "tes3map"
version = "0.1.0"
edition = "2021"
publish = false

[dependencies]
seahash = "4"
serde = { version = "1", features = ["derive"] }
log = "0.4"
pretty_env_logger = "0.5"
toml = "0.8"
image = { version = "0.25", default-features = false, features = ["png", "tga", "dds", "bmp"] }
palette = "0.7"
egui = "0.32"
eframe = { version = "0.32", default-features = false, features = ["default_fonts", "glow", "persistence", "x11"] }
rfd = { version = "0.15", default-features = false, features = ["xdg-portal", "tokio"] }
tes3 = "=0.1.0"
