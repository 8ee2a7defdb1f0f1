[package]
name = "safe_copy"
version = "0.1.0"
edition = "2021"
publish = false

[dependencies]
anyhow = "1"
clap = { version = "4", features = ["derive"] }
cliclack = "*"
rayon = "1"
sha2 = "0.10"
