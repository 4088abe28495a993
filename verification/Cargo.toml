[package]
name = "verbalcode"
version = "0.1.0"
edition = "2021"
publish = false

[dependencies]
serde = { version = "*", features = ["derive"] }
serde_urlencoded = "*"
wasmbus-rpc = "*"
wasmcloud-interface-keyvalue = "*"
