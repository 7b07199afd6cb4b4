[package]
name = "taskdep"
version = "0.1.0"
edition = "2021"
publish = false

[dependencies]
anyhow = "1"
clap = { version = "3.2", features = ["derive"] }
petgraph = "0.6"
serde_yaml = "0.9"
webbrowser = "0.8"
