[package]
name = "neuromaster"
version = "0.1.0"
edition = "2021"
publish = false

[dependencies]
domain = "0.7"
fdg-sim = "0.9"
kiss3d = { version = "0.35", features = ["conrod"] }
rust_nmap = "*"
