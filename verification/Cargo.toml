[package]
name = "history_store"
version = "0.1.0"
edition = "2021"
publish = false

[dependencies]
fd-lock = "4"
indexmap = "2"
rand = { version = "0.8", features = ["small_rng"] }
