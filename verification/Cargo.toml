[package]
name = "nml"
version = "0.1.0"
edition = "2021"
publish = false

[dependencies]
runtime-format = "*"
rust-crypto = "=0.2.36"
ariadne = "0.4"
serde = { version = "1", features = ["derive"] }
serde_json = "1"
mlua = { version = "0.9", features = ["lua54", "vendored"] }
