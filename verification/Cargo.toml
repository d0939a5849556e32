[package]
name = "logtables"
version = "0.1.0"
edition = "2021"
publish = false

[dependencies]
csv = "*"
serde = "*"
serde_json = "*"
structopt = "*"
