[package]
name = "torrent_meta"
version = "0.1.0"
edition = "2021"
publish = false

[dependencies]
anyhow = "*"
clap = { version = "*", features = ["cargo"] }
indicatif = "*"
inquire = "*"
path-clean = "*"
term-painter = "*"
term_size = "*"
unicode-truncate = "*"
walkdir = "*"
