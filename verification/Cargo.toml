[package]
name = "wee_alloc_bw"
version = "0.1.0"
edition = "2021"
publish = false

[dependencies]
memory_units = "0.4"
spin = "0.9"
const-init = "0.1"
