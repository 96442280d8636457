[package]
name = "chlex"
version = "0.1.0"
edition = "2021"
publish = false

[dependencies]
unicode-ident = "1"
