[package]
name = "repocopy"
version = "0.1.0"
edition = "2021"
publish = false

[dependencies]
arboard = "*"
clap = { version = "*", features = ["derive"] }
quick-xml = "*"
serde = { version = "*", features = ["derive"] }
serde_yaml = "*"
walkdir = "*"
xdg = "*"
