[package]
name = "rustfin"
version = "0.1.0"
edition = "2021"
publish = false

[dependencies]
argon2 = "*"
sha2 = "*"
hex = "*"
subtle = "*"
uuid = { version = "*", features = ["v4"] }
serde_json = "*"
