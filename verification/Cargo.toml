[package]
name = "tinyproxy"
version = "0.1.0"
edition = "2021"
publish = false

[dependencies]
anyhow = "1"
base64 = "0.22"
bytes = "1"
chrono = { version = "0.4", features = ["serde"] }
clap = "4"
env_logger = "0.11"
libc = "0.2"
log = "0.4"
native-tls = "0.2"
nix = { version = "0.29", features = ["process", "fs"] }
regex = "1"
serde = { version = "1", features = ["derive"] }
serde_json = "1"
thiserror = "1"
tokio = { version = "1", features = ["full"] }
url = "2"
