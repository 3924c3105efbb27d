[package]
name = "ibbe"
version = "0.1.0"
edition = "2021"
publish = false

[dependencies]
byteorder = "1"
digest = "0.7"
pairing = "0.14"
rand = "0.4"
sha3 = "0.7"
