[package]
name = "save_swap"
version = "0.1.0"
edition = "2021"
publish = false

[dependencies]
chrono = "0.4"
new-vdf-parser = "0.2"
regex = "1"
serde = { version = "1", features = ["derive"] }
serde_json = "1"
sysinfo = "*"
walkdir = "2"
winreg = "*"
