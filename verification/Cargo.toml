[package]
name = "overlay_core"
version = "0.1.0"
edition = "2021"
publish = false

[dependencies]
chrono = { version = "0.4", default-features = false, features = ["clock", "std"] }
dirs = "6"
serde = { version = "1", features = ["derive"] }
serde_json = "1"
toml = { version = "0.9", default-features = false, features = ["parse", "serde", "std"] }
iced = { version = "0.14", default-features = false, features = ["tiny-skia", "wayland"] }
iced_layershell = { version = "0.18", default-features = false }
