[package]
name = "irradiance"
version = "0.1.0"
edition = "2021"
publish = false

[dependencies]
candela = "*"
serde = { version = "1", features = ["derive"] }
