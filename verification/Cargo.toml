[package]
name = "docker_duplicate_files"
version = "0.1.0"
edition = "2021"
publish = false

[dependencies]
anyhow = "1"
chrono = "0.4"
clap = { version = "4", features = ["derive"] }
env_logger = "0.11"
flate2 = "1"
humansize = "2"
itertools = "0.14"
log = "0.4"
rapidhash = "*"
rayon = "1"
ring = "0.17"
serde = { version = "1", features = ["derive"] }
serde_json = "1"
sha2 = "0.10"
tar = "0.4"
tempfile = "3"
