[package]
name = "cssparser"
version = "0.1.0"
edition = "2021"
publish = false

[dependencies]
ariadne = "*"
ratatui = { version = "*", default-features = false }
