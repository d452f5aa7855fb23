[package]
name = "bamf"
version = "0.1.0"
edition = "2021"
publish = false

[dependencies]
histogram = "0.6"
rust-htslib = { version = "*", default-features = false }
structopt = "0.3"
