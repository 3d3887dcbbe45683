[package]
name = "oauth1-header"
version = "0.1.0"
edition = "2021"
publish = false

[dependencies]
base64 = "0.11"
hmac = "0.7"
http = "0.2"
percent-encoding = "2.1"
rand = "0.7"
sha-1 = "0.8"
