[package]
name = "eos_installer"
version = "0.1.0"
edition = "2021"
publish = false

[dependencies]
toml = "0.8"
anyhow = "1"
libc = "0.2"
futures-channel = "0.3"
pkgar = "0.2"
pkgar-core = "0.2"
pkgar-keys = "0.2"
redox-pkg = "0.3"
