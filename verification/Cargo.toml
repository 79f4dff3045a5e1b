[package]
name = "objview"
version = "0.1.0"
edition = "2021"
publish = false

[dependencies]
anyhow = "1"
mimalloc = "*"
napi = "2"
napi-derive = "2"
serde = "1"
serde_derive = "1"
