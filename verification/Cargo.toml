[package]
name = "configwatch"
version = "0.1.0"
edition = "2021"
publish = false

[dependencies]
crossbeam-channel = "0.5"
log = "0.4"
parking_lot = "0.12"
serde_json = "1"
thiserror = "1"
toml = "0.8"
