[package]
name = "keytokey"
version = "0.1.0"
edition = "2021"
publish = false

[dependencies]
smallbitvec = "2"
no-std-compat = "0.4"
