[package]
name = "azura"
version = "0.1.0"
edition = "2021"
publish = false

[dependencies]
phf = { version = "*", features = ["macros"] }
owo-colors = { version = "*", features = ["supports-colors"] }
lending-iterator = "*"
