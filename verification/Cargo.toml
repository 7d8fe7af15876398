[package]
name = "dedup-gui"
version = "0.1.0"
edition = "2021"
publish = false

[dependencies]
id3 = { version = "*", default-features = false }
image = { version = "*", default-features = false, features = ["png", "jpeg", "bmp", "gif", "webp"] }
serde = { version = "1", features = ["derive"] }
serde_json = "1"
log = "0.4"
crossbeam-channel = "0.5"
redb = "*"
egui = "*"
eframe = { version = "*", default-features = false, features = ["glow", "default_fonts", "x11", "wayland"] }
egui_extras = { version = "*", default-features = false }
rfd = { version = "*", default-features = false, features = ["xdg-portal"] }
rodio = { version = "*", default-features = false, features = ["playback", "mp3"] }

[dev-dependencies]
tempfile = "3"
