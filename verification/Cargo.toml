[package]
name = "hpr-skygate"
version = "0.1.0"
edition = "2021"
publish = false

[dependencies]
bytes = "1"
clap = { version = "4", features = ["derive"] }
crossbeam-channel = "0.5"
dashmap = "6"
mio = { version = "1", features = ["os-poll", "net"] }
once_cell = "1"
serde = { version = "1", features = ["derive"] }
serde_json = "1"
tracing = "0.1"
tracing-subscriber = { version = "0.3", features = ["env-filter", "fmt"] }
