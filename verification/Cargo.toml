[package]
name = "network_initializer"
version = "0.1.0"
edition = "2021"
publish = false

[dependencies]
crossbeam-channel = "=0.5.17"
env_logger = "0.11"
itertools = "=0.13.0"
log = "0.4"
petgraph = "=0.6.5"
toml = "0.8"
