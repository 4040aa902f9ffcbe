[package]
name = "fractal_bands"
version = "0.1.0"
edition = "2021"
publish = false

[dependencies]
basemath = "*"
serde = "*"
serde_derive = "*"
toml = "*"
