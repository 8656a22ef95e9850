[package]
name = "github_helper"
version = "0.1.0"
edition = "2021"
publish = false

[dependencies]
clap = "=3.2.25"
http = "=0.2.12"
reqwest = { version = "=0.11.27", features = ["json", "native-tls"] }
serde = { version = "=1.0.229", features = ["derive"] }
serde_json = "=1.0.154"
tokio = { version = "=1.54.1", features = ["macros", "rt-multi-thread"] }
