[package]
name = "websocket"
version = "0.1.0"
edition = "2021"
publish = false

[dependencies]
rand = "*"
rustc-serialize = "*"
sha1 = "*"
url = "*"
openssl = "*"
