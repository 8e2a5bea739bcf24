[package]
name = "ci"
version = "0.1.0"
edition = "2021"
publish = false

[dependencies]
chrono = { version = "=0.4.45", features = ["serde"] }
whoami = "=2.1.3"
anyhow = "=1.0.104"
clap = { version = "=4.6.7", features = ["derive"] }
env_logger = "=0.11.11"
git2 = { version = "=0.21.0", default-features = false }
inotify = "=0.11.5"
log = "=0.4.35"
serde = { version = "=1.0.229", features = ["derive"] }
serde_json = "=1.0.154"
serde_yaml = "=0.9.34"
uuid = { version = "=1.29.0", features = ["v4"] }
librime-sys = "=0.4.0"
rime-api = "=0.12.2"
jieba-rs = "*"
