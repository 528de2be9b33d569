[package]
name = "irc-bot"
version = "0.2.1"
edition = "2021"
publish = false

[dependencies]
regex = "=1.13.1"
yaml-rust = "=0.4.5"
uuid = { version = "=1.29.0", features = ["v4"] }
rand = "=0.8.8"
rando = "=0.2.0"
serde = { version = "=1.0.229", features = ["derive"] }
serde_yaml = "=0.9.34"
clap = "=2.34.0"
env_logger = "=0.11.11"
log = "=0.4.35"
walkdir = "=2.5.0"
url = "=2.5.8"
crossbeam-channel = "=0.5.17"
irc = { version = "=1.1.0", default-features = false }
tokio = { version = "=1.54.1", features = ["rt", "macros", "net"] }
futures = "=0.3.34"
quantiles = "=0.7.1"
gaol = "0.2"
