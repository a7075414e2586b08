[package]
name = "vit"
version = "0.1.0"
edition = "2021"
publish = false

[dependencies]
lalrpop-util = { version = "=0.20.2", features = ["lexer"] }
