[package]
name = "nyash_interpreter"
version = "0.1.0"
edition = "2021"
publish = false

[dependencies]
toml = "0.8"
serde_json = "1"
thiserror = "1"
libloading = "0.8"
lazy_static = "1"
