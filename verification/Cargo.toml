[package]
name = "hotspot"
version = "0.1.0"
edition = "2021"
publish = false

[dependencies]
anyhow = "*"
chrono = "*"
clap = { version = "*", features = ["derive"] }
csv = "*"
git2 = "*"
serde = { version = "*", features = ["derive"] }
serde_json = "*"
tabled = "*"
tokei = "*"
