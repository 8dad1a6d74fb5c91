[package]
name = "motatool"
version = "0.1.0"
edition = "2021"
publish = false

[dependencies]
anyhow = "1"
clap = { version = "4", features = ["derive"] }
ctrlc = "3"
ed25519-dalek = "2"
flate2 = "1"
getrandom = "0.2"
hex = "0.4"
serialport = { version = "4", default-features = false }
sha2 = "0.10"
walkdir = "2"
