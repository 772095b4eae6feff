[package]
name = "poi_cli"
version = "0.1.0"
edition = "2021"
publish = false

[dependencies]
serde_json = "*"
serde_urlencoded = "*"
url = "*"
serde = { version = "*", features = ["derive"] }
serde_yaml = "*"
reqwest = { version = "*", default-features = false }
tokio = { version = "*", features = ["macros", "rt-multi-thread", "fs", "sync"] }
clap = { version = "*", features = ["derive"] }
csv = "*"
anyhow = "*"
console = "*"
atty = "*"
async-trait = "*"
