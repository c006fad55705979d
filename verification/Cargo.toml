[package]
name = "sigscan"
version = "0.1.0"
edition = "2021"
publish = false

[dependencies]
alloy-json-abi = "*"
alloy-primitives = "*"
clap = { version = "*", features = ["derive"] }
color-eyre = "*"
eyre = "*"
hex = "*"
revm = "*"
serde = { version = "*", features = ["derive"] }
serde_json = "*"
tempfile = "*"
toml = "*"

[dev-dependencies]
alloy-dyn-abi = "*"
