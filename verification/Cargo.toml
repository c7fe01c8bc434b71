[package]
name = "ldjam55"
version = "0.1.0"
edition = "2021"
publish = false

[dependencies]
noise = "0.9"
rand = "0.8"
rand_distr = "0.4"
wyrand = { version = "0.2", features = ["rand_core"] }
xxhash-rust = { version = "0.8", features = ["xxh3"] }
