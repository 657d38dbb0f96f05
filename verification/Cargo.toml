[package]
name = "idiomatic"
version = "0.1.0"
edition = "2021"
publish = false

[dependencies]
convert_case = "*"
serde = { version = "*", features = ["derive"] }
serde_yaml = "*"
indexmap = { version = "*", features = ["serde"] }
structopt = "*"
