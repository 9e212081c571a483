[package]
name = "convert_to_json"
version = "0.1.0"
edition = "2021"
publish = false

[dependencies]
alloy-primitives = { version = "*", features = ["serde"] }
bincode = "1"
clap = { version = "*", features = ["derive"] }
color-eyre = "*"
flate2 = "*"

[dev-dependencies]
serde_json = { version = "*", features = ["preserve_order"] }
