[package]
name = "sigma"
version = "0.1.0"
edition = "2021"
publish = false

[dependencies]
pest = "2"
regex = "1"
strsim = "0.11"
