[package]
name = "eyecite"
version = "0.1.0"
edition = "2021"
publish = false

[dependencies]
regex = "*"
daachorse = "*"
reporters-db = "*"
