[package]
name = "leaderboard"
version = "0.1.0"
edition = "2021"
publish = false

[dependencies]
ink_lang = "3.4"
ink_env = "3.4"
ink_storage = "3.4"
ink_primitives = "3.4"
ink_metadata = "3.4"
parity-scale-codec = { version = "*", features = ["derive"] }
scale-info = { version = "*", features = ["derive"] }
