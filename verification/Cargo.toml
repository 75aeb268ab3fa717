[package]
name = "ex_em_ell"
version = "0.1.0"
edition = "2021"
publish = false

[dependencies]
xml-rs = "0.8"
heck = "0.5"
itertools = "0.12"
thiserror = "1"
syn = { version = "2", features = ["full"] }
quote = "1"
proc-macro2 = "1"
darling = "0.20"
