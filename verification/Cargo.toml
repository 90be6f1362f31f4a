[package]
name = "radiodiodj"
version = "0.1.0"
edition = "2021"
publish = false

[dependencies]
sha2 = "0.10"
base64 = "0.22"
serde = { version = "1", features = ["derive"] }
serde_json = "1"
rusqlite = { version = "*", features = ["bundled"] }
rusqlite_migration = "*"
walkdir = "2"
parking_lot = "0.12"
anyhow = "1"
log = "0.4"
lofty = "*"
symphonia = "0.5"
