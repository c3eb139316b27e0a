[package]
name = "serpico"
version = "0.1.0"
edition = "2021"
publish = false

[dependencies]
csv = "*"
url = "*"
tokio = { version = "*", features = ["macros", "rt-multi-thread", "sync"] }
clap = { version = "*", features = ["derive"] }
kdam = "*"
starknet = "*"
