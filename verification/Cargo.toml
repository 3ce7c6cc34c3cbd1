[package]
name = "magical_merchant_core"
version = "0.1.0"
edition = "2021"
publish = false

[dependencies]
chrono = "0.4"
sha2 = "0.10"
serde = { version = "1", features = ["derive"] }
serde_json = "1"
serde_yaml = "0.9"
markdown-frontmatter = "*"
jsonwebtoken = "9"
urlencoding = "2"
url = "2"
