[package]
name = "keybind_docs"
version = "0.1.0"
edition = "2021"
publish = false

[dependencies]
access-json = "*"
analisar = "*"
clap = { version = "*", features = ["derive"] }
color-eyre = "*"
serde_json = "*"
shellexpand = "*"
