[package]
name = "neural_network"
version = "0.1.0"
edition = "2021"

[dependencies]
rand = "0.8"

[dev-dependencies]
approx = "0.4"
rand_chacha = "0.3"
