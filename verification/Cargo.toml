[package]
name = "anote_store"
version = "0.1.0"
edition = "2021"
publish = false

[dependencies]
chrono = "*"
comrak = { version = "*", default-features = false }
dirs = "*"
genpdf = "*"
rusqlite = { version = "*", features = ["bundled"] }
serde = { version = "*", features = ["derive"] }
serde_json = "*"
