[package]
name = "koto_help"
version = "0.1.0"
edition = "2021"
publish = false

[dependencies]
indexmap = "*"
pulldown-cmark = "*"
