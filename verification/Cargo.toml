[package]
name = "ttx_litex"
version = "0.1.0"
edition = "2021"
publish = false

[dependencies]
crc = "3"
log = "0.4"
parse_int = "*"
pretty-bytes-typed = "*"
zerocopy = "0.8"
