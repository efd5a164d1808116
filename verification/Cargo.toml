[package]
name = "quote_stream"
version = "0.1.0"
edition = "2021"
publish = false

[dependencies]
clap = { version = "*", features = ["derive"] }
crossbeam = "*"
ctrlc = "*"
env_logger = "*"
log = "*"
rand = "*"
