[package]
name = "enum_delegator"
version = "0.1.0"
edition = "2021"
publish = false

[dependencies]
syn = { version = "2", default-features = false, features = ["full", "parsing", "printing"] }
quote = { version = "1", default-features = false }
proc-macro2 = { version = "1", default-features = false }
once_cell = { version = "1" }
