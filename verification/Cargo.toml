[package]
name = "git-remote-iroh"
version = "0.1.0"
edition = "2021"
publish = false

[dependencies]
anyhow = "1"
clap = { version = "4", features = ["derive"] }
data-encoding = "2"
iroh = "*"
iroh-tickets = "*"
noq = "*"
rand = "*"
tokio = { version = "1", features = ["rt-multi-thread", "macros", "io-util", "io-std", "process", "signal", "time"] }
tokio-util = "*"
tracing = "0.1"
tracing-subscriber = { version = "0.3", features = ["env-filter"] }
