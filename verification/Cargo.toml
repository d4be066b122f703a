[package]
name = "neural_nets"
version = "0.1.0"
edition = "2021"
publish = false

[dependencies]
nalgebra = "0.31"
