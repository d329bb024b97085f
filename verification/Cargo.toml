[package]
name = "lab"
version = "0.1.0"
edition = "2021"
publish = false

[dependencies]
sha2 = "0.10"
serde = { version = "1", features = ["derive"] }
serde_json = "1"
rusqlite = { version = "*", features = ["bundled"] }
chrono = "0.4"
clap = { version = "4", features = ["derive"] }
csv = "1"
rayon = "1"
env_logger = "*"
ureq = "*"

[dev-dependencies]
tempfile = "3"
