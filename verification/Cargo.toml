[package]
name = "markdown-viewer"
version = "0.1.0"
edition = "2021"
publish = false

[dependencies]
pulldown-cmark = { version = "0.13", default-features = false }
serde = { version = "1", features = ["derive"] }
serde_json = "1"
toml = "0.8"
dirs = "6"
thiserror = "2"
egui = "0.31"
eframe = { version = "0.31", default-features = false, features = ["default_fonts", "glow", "x11"] }
egui_extras = "0.31"
rfd = "0.15"
open = "5"

[dev-dependencies]
tempfile = "3"
