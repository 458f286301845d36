[package]
name = "teleport_helper"
version = "1.5.0"
edition = "2021"
publish = false

[dependencies]
anyhow = "1"
clap = { version = "4", features = ["derive"] }
colored = "2"
console = "0.15"
crossterm = "0.27"
dirs = "5"
indicatif = "0.17"
rand = "0.8"
regex = "1"
reqwest = { version = "0.11", default-features = false, features = ["json"] }
semver = "1"
serde = { version = "1", features = ["derive"] }
serde_json = "1"
thiserror = "1"
tokio = { version = "1", features = ["full"] }
toml = "0.8"
webbrowser = "0.8"
which = "4"
