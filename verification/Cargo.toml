[package]
name = "cargo_localize"
version = "0.1.0"
edition = "2021"
publish = false

[dependencies]
anyhow = "*"
cargo_metadata = "*"
clap = { version = "*", features = ["derive"] }
dirs = "*"
fs_extra = "*"
toml_edit = "*"
walkdir = "*"
