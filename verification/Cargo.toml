[package]
name = "kq"
version = "0.1.0"
edition = "2021"
publish = false

[dependencies]
kdl = "*"
nom = "7"
getopts = "*"
