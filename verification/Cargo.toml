[package]
name = "hg_rs"
version = "0.1.0"
edition = "2021"
publish = false

[dependencies]
anyhow = "*"
chrono = "*"
clap = "*"
sha1 = "*"
