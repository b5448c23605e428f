[package]
name = "hamming"
version = "0.1.0"
edition = "2021"
publish = false

[dependencies]
anyhow = "1"
base64 = "0.13"
clap = "2"
rand = "0.8"
