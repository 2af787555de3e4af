[package]
name = "gallery_core"
version = "0.1.0"
edition = "2021"
publish = false

[dependencies]
chrono = "*"
csv = "*"
dirs = "*"
notify = "*"
notify-debouncer-mini = "*"
rusqlite = { version = "*", features = ["bundled"] }
serde = { version = "*", features = ["derive"] }
serde_json = "*"
walkdir = "*"
