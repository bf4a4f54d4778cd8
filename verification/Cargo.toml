[package]
name = "mod2lib"
version = "0.1.0"
edition = "2021"
publish = false

[dependencies]
string_cache = "*"
tracing = "*"
tracing-subscriber = "*"

[dev-dependencies]
rand = "*"
