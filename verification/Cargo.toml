[package]
name = "ruach"
version = "0.1.0"
edition = "2021"
publish = false

[dependencies]
base64 = "0.22"
comrak = { version = "*", default-features = false }
rusqlite = { version = "*", features = ["bundled"] }
serde = { version = "1", features = ["derive"] }
serde_json = "1"
