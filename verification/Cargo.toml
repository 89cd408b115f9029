[package]
name = "just"
version = "0.1.0"
edition = "2021"
publish = false

[dependencies]
edit-distance = "2"
tempfile = "3"
