[package]
name = "bit_seq"
version = "0.2.1"
edition = "2021"

[dependencies]
proc-macro2 = "=1.0.107"
syn = { version = "=2.0.119", features = ["full"] }
