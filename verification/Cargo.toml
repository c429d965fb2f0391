[package]
name = "xsk_engine"
version = "0.1.0"
edition = "2021"
publish = false

[dependencies]
crossbeam-channel = "*"
core_affinity = "*"
log = "*"
etherparse = "*"
