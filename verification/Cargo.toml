[package]
name = "souchy_tauri_specta"
version = "0.1.0"
edition = "2021"
publish = false

[dependencies]
serde = { version = "1", features = ["derive"] }
serde_json = "1"
specta = { version = "2.0.0-rc.21", features = ["derive"] }
sqlx = { version = "0.8", default-features = false, features = ["json", "sqlite"] }
