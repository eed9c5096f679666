[package]
name = "miden_stark_verifier"
version = "0.1.0"
edition = "2021"
publish = false

[dependencies]
p3-challenger = "0.4"
p3-commit = "0.4"
p3-field = "0.4"
p3-goldilocks = "0.4"
p3-matrix = "0.4"
p3-util = "0.4"
