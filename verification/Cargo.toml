[package]
name = "carpy"
version = "1.0.0"
edition = "2021"
publish = false

[dependencies]
clap = "3.2"
serde = "1.0"
serde_derive = "1.0"
toml = "0.5"
