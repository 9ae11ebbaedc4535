[package]
name = "hts"
version = "0.1.0"
edition = "2021"
publish = false

[dependencies]
bit-vec = "0.6"
byteorder = "1"
bytes = "1"
noodles-bgzf = { version = "*", features = ["async"] }
tokio = { version = "1", features = ["io-util", "io-std", "rt", "macros"] }
