[package]
name = "remstats"
version = "0.1.0"
edition = "2021"
publish = false

[dependencies]
clap = { version = "*", features = ["derive"] }
colored = "*"
crossbeam-channel = "*"
ctrlc = "*"
ssh2 = "*"
