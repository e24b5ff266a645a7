[package]
name = "rust_feeds"
version = "0.1.0"
edition = "2021"
publish = false

[dependencies]
sha2 = "0.10"
textnonce = "*"
smol = "*"
smol-macros = "*"
futures = "0.3"
rusqlite = { version = "*", features = ["bundled"] }
