[package]
name = "markov_grid"
version = "0.1.0"
edition = "2021"
publish = false

[dependencies]
gif = "0.12"
rand = { version = "0.8", features = ["small_rng"] }
