[package]
name = "petrify"
version = "0.1.0"
edition = "2021"
publish = false

[dev-dependencies]
roxmltree = "=0.21.1"
