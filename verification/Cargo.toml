[package]
name = "pistol"
version = "0.1.0"
edition = "2021"
publish = false

[dependencies]
anyhow = "*"
log = "*"
pnet = "*"
prettytable-rs = "*"
rand = "*"
regex = "*"
serde = { version = "*", features = ["derive"] }
threadpool = "*"
