[package]
name = "tsundeoku"
version = "0.1.0"
edition = "2021"
publish = false

[dependencies]
anyhow = "*"
bat = { version = "=0.26.1", default-features = false, features = ["regex-fancy"] }
chrono = "*"
clap = { version = "*", features = ["derive"] }
colored = "*"
cron = "*"
cron-descriptor = "=0.1.2"
english-to-cron = "=0.1.7"
home = "*"
path-dedot = "*"
plist = "*"
serde = { version = "*", features = ["derive"] }
shellexpand = "*"
symphonia = "=0.5.5"
symphonia-core = "=0.5.5"
toml = "*"
walkdir = "*"
