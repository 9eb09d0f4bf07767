[package]
name = "silicone"
version = "0.1.0"
edition = "2021"
publish = false

[dependencies]
anyhow = "1"
base64 = "0.22"
clap = { version = "4", features = ["derive"] }
crossterm = "0.28"
ctrlc = "3"
headless_chrome = "1"
libc = "0.2"
