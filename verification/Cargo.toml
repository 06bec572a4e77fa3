[package]
name = "image_updater"
version = "0.1.0"
edition = "2021"
publish = false

[dependencies]
alphanumeric-sort = "*"
anyhow = "*"
dotenvy = "*"
env_logger = "*"
git2 = "*"
log = "*"
oci-distribution = "*"
regex = "*"
rocket = "*"
serde = { version = "*", features = ["derive"] }
serde_yaml = "*"
tempfile = "*"
walkdir = "*"
yaml-split = "*"
