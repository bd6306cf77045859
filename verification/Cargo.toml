[package]
name = "document_library"
version = "0.1.0"
edition = "2021"
publish = false

[dependencies]
md-5 = "*"
percent-encoding = "*"
uuid = { version = "*", features = ["v4"] }
serde_json = "*"
chrono = "*"
