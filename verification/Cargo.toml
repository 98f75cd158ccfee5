[package]
name = "argument_generator"
version = "0.1.0"
edition = "2021"
publish = false

[dependencies]
hex = "0.4"
sha2 = "0.10"
bls12_381 = "0.8"
clvmr = "0.1"
rand = "0.8"
