[package]
name = "store"
version = "0.1.0"
edition = "2021"
publish = false

[dependencies]
parking_lot = "0.12"

[dev-dependencies]
ethereum-types = "0.14"
ethereum_ssz = "0.5"
