[package]
name = "sixel"
version = "0.1.0"
edition = "2021"
publish = false

[dependencies]
picto = "*"
control-code = "*"
fnv = "*"
terminfo = "*"
termsize = "*"
