[package]
name = "dex_class"
version = "0.1.0"
edition = "2021"
publish = false

[dependencies]
scroll = "0.9"
