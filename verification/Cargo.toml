[package]
name = "xxhash"
version = "0.1.0"
edition = "2021"
publish = false

[dependencies]

[dev-dependencies]
getrandom = "0.2"
twox-hash = "1.6"
