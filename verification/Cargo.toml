[package]
name = "oxidize"
version = "0.1.0"
edition = "2021"
publish = false

[dependencies]
anyhow = "*"
clap = { version = "*", features = ["derive"] }
tempfile = "*"
toml = "*"
walkdir = "*"
