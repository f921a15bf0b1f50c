[package]
name = "fnscan"
version = "0.1.0"
edition = "2021"
publish = false

[dependencies]
syn = { version = "*", features = ["full"] }
quote = "*"
proc-macro2 = { version = "*", features = ["span-locations"] }
colored = "*"
