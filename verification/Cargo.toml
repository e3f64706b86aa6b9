[package]
name = "meilidb-core"
version = "0.1.0"
edition = "2021"
publish = false

[dependencies]
fst = "0.3"
sdset = "0.3"
crossbeam-channel = "0.3"
