[package]
name = "leo_eclipse"
version = "0.1.0"
edition = "2021"
publish = false

[dependencies]
marlu = { version = "=0.18.0", default-features = false }
measurements = "=0.11.1"
