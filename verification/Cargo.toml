[package]
name = "fhsenv"
version = "0.1.0"
edition = "2021"
publish = false

[dependencies]
anyhow = "*"
clap = { version = "*", features = ["derive"] }
futures = "*"
nix = { version = "*", features = ["fs", "mount", "process", "sched", "signal", "user"] }
regex = "*"
serde_json = "*"
tempfile = "*"
tokio = { version = "*", features = ["macros", "rt", "process", "fs", "io-util"] }
