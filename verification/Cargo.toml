[package]
name = "tip_jar"
version = "0.1.0"
edition = "2021"
publish = false

[dependencies]
anchor-lang = "*"
