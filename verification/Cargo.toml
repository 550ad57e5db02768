[package]
name = "maki"
version = "0.1.0"
edition = "2021"
publish = false

[dependencies]
anyhow = "1"
clap = { version = "4", features = ["derive"] }
colored = "2"
dialoguer = { version = "0.11", features = ["fuzzy-select"] }
dirs = "5"
hex = "0.4"
regex = "1"
serde = { version = "1", features = ["derive"] }
serde_json = "1"
sha2 = "0.10"
skim = "*"
syntect = { version = "5", default-features = false, features = ["default-fancy"] }
walkdir = "2"
