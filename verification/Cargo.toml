[package]
name = "plinko"
version = "0.1.0"
edition = "2021"
publish = false

[dependencies]
aes = "0.8"
sha2 = "0.10"
once_cell = "1"
clap = { version = "4", features = ["derive"] }
