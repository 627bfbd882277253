[package]
name = "crony"
version = "0.1.0"
edition = "2021"
publish = false

[dependencies]
anyhow = "1"
clap = { version = "4", features = ["derive"] }
colored = "2"
daemonize-me = "2"
dirs = "5"
once_cell = "1"
os_pipe = "1"
rand = "0.8"
serde = { version = "1", features = ["derive"] }
serde_json = "1"
tabular = "0.2"
time = { version = "0.3", features = ["formatting", "local-offset", "serde"] }
