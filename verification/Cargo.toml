[package]
name = "csvsc"
version = "0.1.0"
edition = "2021"
publish = false

[dependencies]
clap = "2"
csv = "1"
encoding = "0.2"
rand = "0.8"
regex = "1"
strfmt = "0.1"
