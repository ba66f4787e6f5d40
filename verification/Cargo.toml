[package]
name = "dirsync"
version = "0.1.0"
edition = "2021"
publish = false

[dependencies]
crc32fast = "*"
clap = { version = "*", features = ["derive"] }
serde = "*"
serde_derive = "*"
toml = "*"
walkdir = "*"
