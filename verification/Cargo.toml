[package]
name = "lightning_net"
version = "0.1.0"
edition = "2021"
publish = false

[dependencies]
crossbeam = "0.8"
lightning = "0.0.106"
