[package]
name = "cosmwasm_core"
version = "0.1.0"
edition = "2021"
publish = false

[dependencies]
sha2 = "0.10"
serde = { version = "1", features = ["derive"] }
serde-json-wasm = "1"
schemars = "0.8"
