[package]
name = "ipmsg"
version = "0.1.0"
edition = "2021"
publish = false

[dependencies]
anyhow = "1"
encoding_rs = "0.8"
env_logger = "0.11"
get_if_addrs = "0.5"
hostname = "0.4"
log = "0.4"
once_cell = "1"
rand = "0.9"
rfd = "*"
rust-i18n = "*"
serde = { version = "1", features = ["derive"] }
serde_json = "1"
sys-locale = "0.3"
tokio = { version = "1", features = ["full"] }
toml = "0.8"
whoami = "1"
