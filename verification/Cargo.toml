[package]
name = "garde"
version = "0.1.0"
edition = "2021"
publish = false

[dependencies]
argh = "0.1"
compact_str = "*"
smallvec = "1"

[dev-dependencies]
card-validate = "*"
phonenumber = "*"
regex = "1"
url = "2"
