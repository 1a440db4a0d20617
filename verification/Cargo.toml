[package]
name = "pkgtrace"
version = "0.1.0"
edition = "2021"
publish = false

[dependencies]
anyhow = "1"
chrono = "0.4"
clap = { version = "4", features = ["derive"] }
colored = "2"
home = "0.5"
indicatif = "0.17"
parking_lot = "0.12"
rayon = "1"
regex = "1"
serde = { version = "1", features = ["derive"] }
serde_json = "1"
serde_yaml = "0.9"
sha2 = "0.10"
toml = "0.8"
walkdir = "2"
which = "6"

[dev-dependencies]
tempfile = "3"
