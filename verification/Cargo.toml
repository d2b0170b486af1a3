[package]
name = "tova"
version = "0.1.0"
edition = "2021"
publish = false

[dependencies]
sha1 = "*"
urlencoding = "*"
bencode = "*"
regex = "*"
hyper = { version = "0.14", features = ["client", "http1", "tcp"] }
tokio = { version = "1", features = ["rt"] }
