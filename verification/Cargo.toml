[package]
name = "reachpy-config"
version = "0.1.0"
edition = "2021"
publish = false

[dependencies]
colored = "2"
ctrlc = "3"
notify = "6"
serde = { version = "1", features = ["derive"] }
serde_json = "1"
toml = "0.8"
