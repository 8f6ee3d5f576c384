[package]
name = "graph_buddy"
version = "0.1.0"
edition = "2021"
publish = false

[dependencies]
csv = "*"
image = { version = "*", default-features = false, features = ["png"] }
num = "*"
