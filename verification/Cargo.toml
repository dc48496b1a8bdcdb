[package]
name = "liteipc"
version = "0.1.0"
edition = "2021"
publish = false

[dependencies]
mlua = { version = "0.9", features = ["lua54", "module"] }
subprocess = "0.2"
