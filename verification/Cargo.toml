[package]
name = "cdr-encoding-size-derive"
version = "0.5.1"
edition = "2021"
publish = false

[dependencies]
proc-macro2 = "1"
quote = "1"
syn = "2"
