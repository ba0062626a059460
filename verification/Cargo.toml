[package]
name = "desksort"
version = "0.1.0"
edition = "2021"
publish = false

[dependencies]
anyhow = "1"
dirs = "*"
rusqlite = { version = "*", features = ["bundled"] }
serde = { version = "1", features = ["derive"] }
tauri = { version = "*", default-features = false }
thiserror = "*"
walkdir = "2"
