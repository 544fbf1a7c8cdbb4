[package]
name = "password_chef"
version = "0.1.0"
edition = "2021"
publish = false

[dependencies]
itertools = "*"
unicode_titlecase = "*"
clap = { version = "*", features = ["derive"] }
