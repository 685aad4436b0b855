[package]
name = "tilings"
version = "0.1.0"
edition = "2021"
publish = false

[dependencies]
percent-encoding = "=2.3.2"
validator = "=0.15.0"
rust-argon2 = "=1.0.1"
serde = { version = "=1.0.229", features = ["derive"] }
serde_json = "=1.0.154"
base64 = "=0.13.1"
itertools = "=0.10.5"
float-cmp = "=0.9.0"
num-traits = "=0.2.19"
rand = "=0.8.8"
chrono = "=0.4.45"
regex = "1"
