[package]
name = "config_cell_gen"
version = "0.1.0"
edition = "2021"
publish = false

[dependencies]
ckb-hash = "=1.1.1"
faster-hex = "=0.6.1"
hex = "=0.4.3"
