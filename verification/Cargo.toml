[package]
name = "aevia"
version = "0.1.0"
edition = "2021"
publish = false

[dependencies]
rust_decimal = "=1.43.0"
toml = "=0.8.23"
indexmap = "=2.14.2"
miette = "=7.6.0"
clap = { version = "=4.6.7", features = ["derive"] }
colored = "=2.2.0"
log = "=0.4.35"
