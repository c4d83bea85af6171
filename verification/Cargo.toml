[package]
name = "peer_network"
version = "0.1.0"
edition = "2021"
publish = false

[dependencies]
async-std = "1"
derive_more = "0.99"
futures = "0.3"
futures-timer = "3"
rand = "0.8"
