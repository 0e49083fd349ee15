[package]
name = "byte_scanner"
version = "0.1.0"
edition = "2021"
publish = false

[dependencies]
regex = "*"
msvc-demangler = "*"
serde = { version = "*", features = ["derive"] }
serde_json = "*"
