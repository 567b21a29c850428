[package]
name = "mkwp"
version = "0.1.0"
edition = "2021"
publish = false

[dependencies]
base64 = "0.22"
clap = { version = "4", features = ["derive"] }
env_logger = "0.11"
image = { version = "0.25", default-features = false, features = ["png", "jpeg"] }
libheif-sys = "*"
log = { version = "0.4", features = ["kv"] }
plist = "1"
serde = { version = "1", features = ["derive"] }
serde_json = "1"
thiserror = "2"
