[package]
name = "termina"
version = "0.1.0"
edition = "2021"
publish = false

[dependencies]
serde = { version = "1", features = ["derive"] }
serde_json = "1"
uuid = { version = "1", features = ["v4"] }
nix = { version = "0.29", features = ["signal", "process"] }
dirs = "5"
clap = { version = "4", features = ["derive"] }
ureq = "2"
