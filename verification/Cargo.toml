[package]
name = "kyute"
version = "0.1.0"
edition = "2021"
publish = false

[dependencies]
fnv = "=1.0.7"
euclid = "=0.22.14"
parking_lot = "=0.12.5"
similar = "=2.7.0"
slotmap = "1"
