[package]
name = "cinnog"
version = "0.1.0"
edition = "2021"
publish = false

[dependencies]
pulldown-cmark = "*"
gray_matter = "*"
serde = { version = "*", features = ["derive"] }
