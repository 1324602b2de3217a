[package]
name = "toyterm"
version = "0.1.0"
edition = "2021"
publish = false

[dependencies]
unicode-width = "=0.1.14"
ucd = "=0.1.1"
nix = "=0.26.4"
serde = { version = "=1.0.229", features = ["derive"] }
serde_json = "=1.0.154"
log = "=0.4.35"
env_logger = "=0.10.2"
lru = "0.7"
