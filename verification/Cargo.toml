[package]
name = "backtraced"
version = "0.1.0"
edition = "2021"
publish = false

[dependencies]
dot = "0.1"
typed-arena = "2"
