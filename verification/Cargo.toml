[package]
name = "doip_tester"
version = "0.1.0"
edition = "2021"
publish = false

[dependencies]
hex = "=0.4.3"
aes = "=0.8.4"
ctr = "=0.9.2"
cmac = "=0.7.2"
rand = "=0.8.8"
serde = { version = "1", features = ["derive"] }
serde_json = "1"
getopts = "0.2"
