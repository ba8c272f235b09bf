[package]
name = "reel_forge"
version = "0.1.0"
edition = "2021"
publish = false

[dependencies]
regex = "1"
rand = "0.8"
ab_glyph = "0.2"
image = { version = "0.24", default-features = false, features = ["png"] }
clap = { version = "4", features = ["derive"] }
serde = { version = "1", features = ["derive"] }
serde_json = "1"
walkdir = "2"
rayon = "1"
sysinfo = "0.30"
