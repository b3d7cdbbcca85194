[package]
name = "serv"
version = "0.1.0"
edition = "2021"
publish = false

[dependencies]
regex = "=1.13.1"
rustls-pemfile = "=1.0.4"
json = "0.12"
