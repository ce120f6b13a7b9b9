[package]
name = "sm_logic"
version = "0.1.0"
edition = "2021"
publish = false

[dependencies]
json = "0.12"
uuid = { version = "1", features = ["v4"] }
