[package]
name = "atom_store"
version = "0.1.0"
edition = "2021"
publish = false

[dependencies]
illicit = "*"
