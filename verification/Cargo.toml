[package]
name = "oomwrap"
version = "0.1.0"
edition = "2021"
publish = false

[dependencies]
anyhow = "1"
clap = { version = "4", features = ["derive"] }
nix = { version = "*", features = ["fs", "process", "signal", "term"] }
serde = { version = "1", features = ["derive"] }
serde_json = "1"
signal-hook = "*"
skillflag = "*"
tempfile = "3"
