[package]
name = "kanban"
version = "0.1.0"
edition = "2021"
publish = false

[dependencies]
chrono = "0.4"
parking_lot = "0.12"
rusqlite = { version = "*", features = ["bundled"] }
serde = { version = "1", features = ["derive"] }
tauri = { version = "2", default-features = false }
thiserror = "*"
uuid = { version = "1", features = ["v4"] }
