[package]
name = "nr-spec-md"
version = "0.1.0"
edition = "2021"
publish = false

[dependencies]
anyhow = "1"
env_logger = "0.10"
log = "0.4"
pulldown-cmark = { version = "=0.9.6", default-features = false }
pulldown-cmark-to-cmark = "=11.0.2"
semver = { version = "1", features = ["serde"] }
serde = { version = "1", features = ["derive"] }
serde_yaml = "=0.9.34"
toml = "0.7"
