[package]
name = "lrc_media"
version = "0.1.0"
edition = "2021"
publish = false

[dependencies]
regex = "1"
serde = { version = "1", features = ["derive"] }
tauri = { version = "2", default-features = false }
tauri-plugin-store = { version = "2", default-features = false }
