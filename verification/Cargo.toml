[package]
name = "brotli_enc"
version = "0.1.0"
edition = "2021"
publish = false

[dev-dependencies]
brotli-decompressor = "*"
