[package]
name = "evoarm"
version = "0.1.0"
edition = "2021"
publish = false

[dependencies]
rand = "0.6"
nalgebra = "0.32"
config = "0.13"
