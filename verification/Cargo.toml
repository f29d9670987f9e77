[package]
name = "grn_simulator"
version = "0.1.0"
edition = "2021"
publish = false

[dependencies]
rand = "0.8"
rand_chacha = "0.3"
structopt = "0.3"
yaml-rust = "0.4"
