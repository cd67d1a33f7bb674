[package]
name = "light_r"
version = "0.1.0"
edition = "2021"
publish = false

[dependencies]
chrono = { version = "0.4", default-features = false, features = ["std"] }
csv = "=1.4.0"
memmap2 = "=0.9.12"
tempfile = "=3.27.0"
