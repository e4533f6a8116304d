[package]
name = "rice_golomb"
version = "0.1.0"
edition = "2021"
publish = false

[dependencies]
bitvec = "1"
