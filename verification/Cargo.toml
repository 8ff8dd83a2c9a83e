[package]
name = "sapling_primitives"
version = "0.1.0"
edition = "2021"
publish = false

[dependencies]
ff = "=0.4.0"
pairing = "=0.14.2"
rand = "=0.8.8"
sapling-crypto = "=0.1.3"
jubjub = "=0.10.0"
redjubjub = "=0.7.0"
heapsize = "=0.4.2"
parking_lot = "=0.6.4"
ethcore-io = "=1.12.0"
