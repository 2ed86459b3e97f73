[package]
name = "xargo_sysroot"
version = "0.3.0"
edition = "2021"
publish = false

[dependencies]
rustc_version = "0.1"
tempdir = "0.3"
toml = { version = "0.2", default-features = false }
