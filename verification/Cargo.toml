[package]
name = "dir_shell"
version = "0.1.0"
edition = "2021"
publish = false

[dependencies]
pc-keyboard = "*"
spin = "*"
lazy_static = "*"
