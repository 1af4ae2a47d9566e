[package]
name = "rewatch"
version = "0.4.2"
edition = "2021"
publish = false

[dependencies]
shlex = "1"
clap = { version = "4", features = ["derive"] }
ctrlc = "3"
notify = "*"
process-wrap = { version = "*", features = ["std"] }
serde = { version = "1", features = ["derive"] }
toml = "*"
