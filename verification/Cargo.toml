[package]
name = "opensuite_docx"
version = "0.1.0"
edition = "2021"
publish = false

[dependencies]
quick-xml = "*"
serde_json = "*"
zip = { version = "*", default-features = false, features = ["deflate"] }
