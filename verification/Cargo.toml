[package]
name = "markup_vdom"
version = "0.1.0"
edition = "2021"
publish = false

[dependencies]
uuid = { version = "*", features = ["v4"] }
proc-macro2 = "*"
quote = "*"
syn = "*"
