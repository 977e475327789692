[package]
name = "song"
version = "0.1.0"
edition = "2021"
publish = false

[dependencies]
permutation = "*"
midly = "*"
hound = "*"
itertools = "*"
once_cell = "*"
ron = "*"
serde = { version = "1", features = ["derive"] }
cpal = "*"
