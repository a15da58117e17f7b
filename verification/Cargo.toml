[package]
name = "stk"
version = "0.1.0"
edition = "2021"
publish = false

[dependencies]
toml = "0.8"
serde_json = "1"
signal-hook = "0.3"
libc = "0.2"
