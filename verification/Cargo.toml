[package]
name = "lanzatool"
version = "0.1.0"
edition = "2021"
publish = false

[dependencies]
anyhow = "1"
bootspec = "0.1"
clap = { version = "4", features = ["derive"] }
serde = { version = "1", features = ["derive"] }
serde_json = "1"
walkdir = "2"

[dev-dependencies]
tempfile = "3"
