[package]
name = "mafis"
version = "0.1.0"
edition = "2021"
publish = false

[dependencies]
rand = "=0.9.5"
rand_chacha = "=0.9.0"
clap = { version = "=4.6.7", features = ["derive"] }
clap_complete = "=4.6.11"
anyhow = "=1.0.104"
notify = "*"
open = "*"
