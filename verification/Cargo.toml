[package]
name = "glean"
version = "0.1.0"
edition = "2021"
publish = false

[dependencies]
rustc-serialize = "0.3"
glob = "*"
getopts = "*"
log = "*"
