[package]
name = "suckit"
version = "0.1.0"
edition = "2021"
publish = false

[dependencies]
url = "2"
percent-encoding = "2"
md5 = "0.7"
regex = "1"
encoding_rs = "0.8"
kuchiki = "0.8"
cssparser = "0.27"
rand = "0.8"
reqwest = { version = "0.11", default-features = false, features = ["blocking", "cookies", "rustls-tls"] }
