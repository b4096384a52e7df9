[package]
name = "packs"
version = "0.1.0"
edition = "2021"
publish = false

[dependencies]
clap = { version = "*", features = ["derive"] }
glob = "*"
itertools = "*"
lib-ruby-parser = "*"
line-col = "*"
rayon = "*"
serde = { version = "*", features = ["derive"] }
