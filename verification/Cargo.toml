[package]
name = "scriptir"
version = "0.1.0"
edition = "2021"
publish = false

[dependencies]
derive_more = "0.99"
macro_rules_attribute = "0.1"
serde = { version = "1", features = ["derive"] }
