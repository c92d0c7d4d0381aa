[package]
name = "mal"
version = "0.1.0"
edition = "2021"
publish = false

[dependencies]
regex = "1"
itertools = "*"
log = "0.4"
env_logger = "*"
