[package]
name = "devbar"
version = "0.1.0"
edition = "2021"
publish = false

[dependencies]
serde = { version = "1", features = ["derive"] }
serde_json = "1"
dirs = "5"
walkdir = "2"
wait-timeout = "0.2"
sysinfo = "0.33"
