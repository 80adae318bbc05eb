[package]
name = "serde_dbgfmt"
version = "0.1.0"
edition = "2021"
publish = false

[dependencies]
serde = "1"
unicode-ident = "1"
