[package]
name = "reedos_address_space"
version = "0.1.0"
edition = "2021"
publish = false

[dependencies]
scapegoat = "*"

[dev-dependencies]
parking_lot = "*"
