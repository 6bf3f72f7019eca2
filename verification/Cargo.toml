[package]
name = "binja_debugger"
version = "0.1.0"
edition = "2021"
publish = false

[dependencies]
binaryninja = "*"
binaryninjacore-sys = "*"
