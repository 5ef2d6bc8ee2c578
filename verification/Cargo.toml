[package]
name = "play_rinja"
version = "0.1.0"
edition = "2021"
publish = false

[dependencies]
proc-macro2 = "=1.0.107"
syn = { version = "=2.0.119", features = ["full"] }
prettyplease = "=0.2.37"
syntect = "*"
syntect-assets = "=0.23.6"
