[package]
name = "luabundler"
version = "0.1.0"
edition = "2021"
publish = false

[dependencies]
colored = "*"
darklua = "*"
stacker = "*"
tokio = { version = "*", features = ["full"] }
