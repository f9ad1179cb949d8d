[package]
name = "krazyg"
version = "0.1.0"
edition = "2021"
publish = false

[dependencies]
blstrs = "0.6"
ff = "0.12"
group = "0.12"
rand_core = { version = "0.6", features = ["getrandom"] }
