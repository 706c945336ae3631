[package]
name = "colored_diff"
version = "0.2.3"
edition = "2021"

[dependencies]
ansi_term = "0.12"
dissimilar = "1"
itertools = "0.10"

[dev-dependencies]
regex = "1"
