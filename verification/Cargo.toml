[package]
name = "file_corpus"
version = "0.1.0"
edition = "2021"
publish = false

[dependencies]
csv = "*"
sha2 = "*"
rusqlite = { version = "*", features = ["bundled"] }
sqlite-vec = "*"
walkdir = "*"
chrono = "*"
dirs = "*"
lopdf = "*"
reqwest = { version = "*", default-features = false, features = ["blocking", "json"] }
serde = { version = "*", features = ["derive"] }
serde_json = "*"
bytemuck = "*"
