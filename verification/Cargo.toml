[package]
name = "speakturbo"
version = "0.1.0"
edition = "2021"
publish = false

[dependencies]
anyhow = "1"
clap = { version = "4", features = ["derive"] }
dirs = "5"
rodio = { version = "0.19", default-features = false }
ureq = "2"
