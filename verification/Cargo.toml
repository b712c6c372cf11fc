[package]
name = "calcli"
version = "1.0.0"
edition = "2021"
publish = false

[dependencies]
indexmap = "2"
meval = "0.2"
serde = { version = "1", features = ["derive"] }
serde_json = "1"
clap = { version = "4", features = ["derive"] }
color-eyre = "0.6"
ratatui = "0.29"
