[package]
name = "map_symbols"
version = "0.1.0"
edition = "2021"
publish = false

[dependencies]
csv = "*"
elf = "*"
clap = { version = "*", features = ["derive"] }
