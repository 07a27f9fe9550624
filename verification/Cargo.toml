[package]
name = "grok_config"
version = "0.1.0"
edition = "2021"
publish = false

[dependencies]
chrono = "0.4"
indexmap = "2"
serde_json = "1"
sha2 = "0.10"
toml_edit = "0.22"
