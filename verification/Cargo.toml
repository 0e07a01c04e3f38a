[package]
name = "adt_matches"
version = "0.1.0"
edition = "2021"
publish = false

[dependencies]
indexmap = "2"
itertools = "*"
parking_lot = "*"
hvm-core = "*"
