[package]
name = "culper"
version = "0.1.0"
edition = "2021"
publish = false

[dependencies]
base64 = "0.13"
rust-crypto = "0.2.36"
rand = "0.8"
regex = "1"
serde = { version = "1", features = ["derive"] }
serde_yaml = "0.8"
toml = "0.5"
clap = "2"
dirs = "*"
rpassword = "*"
uuid = { version = "*", features = ["v4"] }
time = "0.1"
duct = "*"
