[package]
name = "ser_parser"
version = "0.1.0"
edition = "2021"
publish = false

[dependencies]
hex = "0.3"
cpython = "0.4"
image = { version = "0.23", default-features = false, features = ["png"] }

[dev-dependencies]
nom = "4"
