[package]
name = "webarcade"
version = "0.1.0"
edition = "2021"
publish = false

[dependencies]
sha2 = "*"
serde_json = "*"
toml = "*"
serde = { version = "*", features = ["derive"] }
clap = { version = "*", features = ["derive"] }
anyhow = "*"
sysinfo = "*"
walkdir = "*"
