[package]
name = "discord_cache_explorer"
version = "0.1.0"
edition = "2021"
publish = false

[dependencies]
image = { version = "0.25", default-features = false, features = ["png", "jpeg", "gif", "webp"] }
chrono = "0.4"
directories-next = "2"
eyre = "0.6"
color-eyre = { version = "0.6", default-features = false }
eframe = { version = "0.37", default-features = false, features = ["glow", "x11", "default_fonts"] }
egui_extras = { version = "0.37", default-features = false }
egui_tiles = "0.18"
facet = "*"
figue = "*"
tracing-subscriber = { version = "0.3", features = ["env-filter"] }
