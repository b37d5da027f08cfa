[package]
name = "riven"
version = "0.1.0"
edition = "2021"
publish = false

[dependencies]
uuid = { version = "1", features = ["v4"] }
clap = "4"
mlua = { version = "0.9", features = ["lua54", "vendored"] }
