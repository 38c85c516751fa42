[package]
name = "wallpaper_config"
version = "0.1.0"
edition = "2021"
publish = false

[dependencies]
color-eyre = "0.6"
hotwatch = "0.5"
log = "0.4"
serde = { version = "1", features = ["derive"] }
smithay-client-toolkit = { version = "0.18", default-features = false, features = ["calloop"] }
toml = "0.8"
