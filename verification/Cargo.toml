[package]
name = "calabi_bcs"
version = "0.1.4"
edition = "2021"
publish = false

[dependencies]
serde = { version = "1", features = ["derive"] }
syn = { version = "2", features = ["full"] }
quote = "1"
proc-macro2 = "1"
rust_decimal = { version = "1", features = ["serde"] }
bigdecimal = { version = "0.4", features = ["serde"] }
