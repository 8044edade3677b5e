[package]
name = "gitdeps"
version = "0.1.0"
edition = "2021"
publish = false

[dependencies]
clap = "2"
derive_builder = "0.9"
failure = "0.1"
globset = "0.4"
toml_edit = "0.2"
walkdir = "2"
