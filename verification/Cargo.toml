[package]
name = "unpacker"
version = "0.1.0"
edition = "2021"
publish = false

[dependencies]
regex = "*"
serde = "*"
serde_json = "*"
