[package]
name = "calcr"
version = "0.6.0"
edition = "2021"
publish = false

[dependencies]
getopts = "0.2"
libc = "0.2"
termios = "0.3"
unicode-width = "0.1"
