[package]
name = "permctl"
version = "0.1.0"
edition = "2021"
publish = false

[dependencies]
chrono = "*"
clap = { version = "*", features = ["derive"] }
directories = "*"
nix = { version = "*", features = ["user"] }
serde = { version = "*", features = ["derive"] }
serde_yaml = "*"
thiserror = "*"
tracing = "*"
tracing-subscriber = { version = "*", features = ["env-filter"] }
whoami = "*"
