[package]
name = "language_tabs"
version = "0.1.0"
edition = "2021"
publish = false

[dependencies]
mdbook-preprocessor = "*"
semver = "1"
serde_json = "1"
