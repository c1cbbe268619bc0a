[package]
name = "termedit"
version = "0.1.0"
edition = "2021"
publish = false

[dependencies]
arboard = "*"
crossterm = "*"
dirs = "*"
mlua = { version = "*", features = ["lua54", "vendored"] }
serde_json = "*"
vte = "*"
