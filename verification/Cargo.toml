[package]
name = "blockstore"
version = "0.1.0"
edition = "2021"
publish = false

[dependencies]
chacha20poly1305 = "=0.11.0"
getrandom = "*"
