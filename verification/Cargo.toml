[package]
name = "writer"
version = "0.1.0"
edition = "2021"
publish = false

[dependencies]
aho-corasick = "=1.1.5"
chrono = "=0.4.45"
comrak = { version = "=0.57.0", default-features = false }
dirs = "=7.0.0"
docx-rs = "*"
log = "=0.4.34"
notify = "=8.2.1"
rusqlite = { version = "=0.41.0", features = ["bundled"] }
serde = { version = "=1.0.229", features = ["derive"] }
serde_json = "=1.0.154"
serde_yaml = "=0.9.34"
tempfile = "=3.27.0"
toml = "=1.1.8"
