[package]
name = "markov_names"
version = "0.1.0"
edition = "2021"
publish = false

[dependencies]
capitalize = "*"
itertools = "*"
nanorand = "*"
