[package]
name = "covreport"
version = "0.1.0"
edition = "2021"
publish = false

[dependencies]
coveralls-api = "*"

[dev-dependencies]
serde_json = "1"
