[package]
name = "pathfinder"
version = "0.1.0"
edition = "2021"
publish = false

[dependencies]
bincode = "1"
cached = "0.51"
csv = "1"
env_logger = "0.10"
itertools = "0.12"
log = "0.4"
priority-queue = "1"
reqwest = { version = "0.11", default-features = false, features = ["blocking"] }
serde = { version = "1", features = ["derive"] }
serde_json = "1"
simplers_optimization = "0.4"
sled = "0.34"
statrs = "0.16"
toml = "0.8"
