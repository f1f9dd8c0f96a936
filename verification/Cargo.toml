[package]
name = "amortization"
version = "0.1.0"
edition = "2021"
publish = false

[dependencies]
rust_decimal = { version = "*", features = ["maths"] }
csv = "*"
serde = { version = "*", features = ["derive"] }
