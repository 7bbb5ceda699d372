[package]
name = "rust_pipes"
version = "0.1.0"
edition = "2021"
publish = false

[dependencies]
fastrand = "2"
md5 = "0.7"
clap = "4"
three-d = "0.18"
