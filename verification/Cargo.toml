[package]
name = "lcov_merge"
version = "0.1.0"
edition = "2021"
publish = false

[dependencies]
lcov-parser = "*"
