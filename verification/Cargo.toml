[package]
name = "cargo_override"
version = "0.1.0"
edition = "2021"
publish = false

[dependencies]
anyhow = "1"
camino = "1"
cargo_metadata = "*"
clap = { version = "4", features = ["derive"] }
fs-err = "*"
pathdiff = "*"
semver = "1"
serde = { version = "1", features = ["derive"] }
toml_edit = "*"
url = "2"
