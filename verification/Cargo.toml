[package]
name = "predicat"
version = "0.1.0"
edition = "2021"
publish = false

[dependencies]
sqlite = "*"
regex = "1"
itertools = "*"
clap = "4"
rustyline = "*"
cli-table = { version = "*", default-features = false }

[dev-dependencies]
nom = "7"
