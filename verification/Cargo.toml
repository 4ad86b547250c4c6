[package]
name = "aamp"
version = "0.1.0"
edition = "2021"
publish = false

[dependencies]
lexical = { version = "6.1", features = ["power-of-two"] }
once_cell = "1"
parking_lot = "0.12"
rustc-hash = "1.1"
ryml = "*"
