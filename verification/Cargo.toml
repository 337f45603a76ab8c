[package]
name = "retort"
version = "0.1.0"
edition = "2021"
publish = false

[dependencies]
termcolor = "*"
scopeguard = "*"
lsp-types = "*"
syntect = "*"
