[package]
name = "file_finder"
version = "0.1.0"
edition = "2021"
publish = false

[dependencies]
aopt = { version = "=1.4.6", features = ["serde", "shell"] }
aopt-help = "=0.3.7"
async-recursion = "=1.2.0"
atty = "=0.2.14"
color-eyre = "=0.6.5"
cote = { version = "=0.17.2", features = ["serde", "shell"] }
dunce = "=1.0.5"
serde = { version = "=1.0.229", features = ["derive"] }
serde_json = "=1.0.154"
tokio = { version = "=1.54.1", features = ["rt-multi-thread", "macros", "fs", "sync", "io-util", "io-std"] }
