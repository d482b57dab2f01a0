[package]
name = "validated_forms"
version = "0.1.0"
edition = "2021"
publish = false

[dependencies]
tempfile = "3"
mime = "0.3"
actix-web = { version = "4", default-features = false }
actix-multipart = "*"
futures = "0.3"
validator = "*"
serde = { version = "1", features = ["derive"] }
serde_urlencoded = "*"
