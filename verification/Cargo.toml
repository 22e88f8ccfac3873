[package]
name = "bookmark_filter"
version = "0.1.0"
edition = "2021"
publish = false

[dependencies]
json = "*"
fuzzy-matcher = "*"
powerpack = "*"
anyhow = "*"
