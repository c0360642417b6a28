[package]
name = "envgen"
version = "0.1.0"
edition = "2021"
publish = false

[dependencies]
regex = "*"
anyhow = "*"
clap = { version = "*", features = ["derive"] }
colored = "*"
dialoguer = "*"
libc = "*"
serde = { version = "*", features = ["derive"] }
serde_json = "*"
serde_yaml = "*"
tokio = { version = "*", features = ["macros", "process", "rt-multi-thread", "time", "io-util"] }
