[package]
name = "mdbook-spec"
version = "0.1.0"
edition = "2021"
publish = false

[dependencies]
mdbook = { version = "0.4", default-features = false }
regex = "1"
tempfile = "3"
