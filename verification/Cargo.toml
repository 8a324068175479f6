[package]
name = "leasehund"
version = "0.6.0"
edition = "2021"
publish = false

[dependencies]
heapless = "0.9"
embassy-time = { version = "0.5", features = ["std"] }
embassy-net = { version = "0.9", features = ["udp", "proto-ipv4", "medium-ethernet"] }
