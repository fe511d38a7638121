[package]
name = "epub_parser"
version = "0.1.0"
edition = "2021"
publish = false

[dependencies]
roxmltree = "*"
zip = { version = "*", default-features = false, features = ["deflate"] }
thiserror = "*"
