[package]
name = "graphtropy"
version = "0.1.0"
edition = "2021"
publish = false

[dependencies]
font8x8 = "=0.3.1"
clap = { version = "=4.6.7", features = ["derive"] }
dirs = "=6.0.0"
eframe = { version = "=0.33.3", default-features = false, features = ["default_fonts", "glow", "x11"] }
egui = "=0.33.3"
egui_plot = "=0.34.1"
memmap2 = "=0.9.12"
rayon = "=1.12.0"
rfd = { version = "=0.17.2", default-features = false, features = ["xdg-portal"] }
serde = { version = "=1.0.229", features = ["derive"] }
tiny-skia = "=0.11.4"
toml = "=0.8.23"
