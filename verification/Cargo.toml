[package]
name = "byr_pet"
version = "0.1.0"
edition = "2021"
publish = false

[dependencies]
rand = "*"
twox-hash = "*"
urlencoding = "*"

[dev-dependencies]
serde_json = "*"
