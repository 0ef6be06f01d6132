[package]
name = "agari"
version = "0.1.0"
edition = "2021"
publish = false

[dependencies]
smallvec = "1"
thiserror = "1"
failure = "0.1"
num-derive = "0.4"
num-traits = "0.2"
