[package]
name = "keyscan"
version = "0.1.0"
edition = "2021"
publish = false

[dependencies]
counter = "*"
fred = "10"
clap = { version = "4", features = ["derive"] }
color-eyre = "*"
indicatif = "*"
tabled = "*"
tokio = { version = "1", features = ["macros", "rt-multi-thread", "time"] }
tokio-stream = "*"
