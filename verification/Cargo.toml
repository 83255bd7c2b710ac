[package]
name = "hermes"
version = "0.1.0"
edition = "2021"
publish = false

[dependencies]
anyhow = "*"
chardetng = "*"
clap = { version = "*", features = ["derive"] }
encoding_rs = "*"
jwalk = "*"
rayon = "*"
