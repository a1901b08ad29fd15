[package]
name = "linepager"
version = "0.1.0"
edition = "2021"
publish = false

[dependencies]
memchr = "2"
crossterm = "0.17"
memmap = "0.7"
libc = "0.2"
