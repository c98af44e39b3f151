[package]
name = "cour2ier"
version = "0.1.0"
edition = "2021"
publish = false

[dependencies]
r2pipe = "*"
serde_json = "1"
