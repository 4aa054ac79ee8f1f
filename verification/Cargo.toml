[package]
name = "mockserve"
version = "0.1.0"
edition = "2021"
publish = false

[dependencies]
actix-web = "=4.15.0"
fake = "=5.1.0"
oxc = "=0.139.0"
serde_json = "=1.0.151"
