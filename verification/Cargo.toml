[package]
name = "tfdeploy"
version = "0.1.0"
edition = "2021"
publish = false

[dependencies]
bit-set = "=0.11.1"
bit-vec = "=0.10.1"
ndarray = "=0.17.2"
