[package]
name = "calculator"
version = "0.1.0"
edition = "2021"
publish = false

[dependencies]
dashu = "=0.4.4"
dashu-float = "=0.4.5"
schemars = "0.8"
serde = { version = "1", features = ["derive"] }
