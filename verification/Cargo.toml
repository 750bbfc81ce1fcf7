[package]
name = "asset_restore"
version = "0.1.0"
edition = "2021"
publish = false

[dependencies]
serde_json = "*"
walkdir = "*"
rayon = "*"
indicatif = "*"
console = "*"
dialoguer = "*"
clap = { version = "*", features = ["derive"] }
anyhow = "*"
