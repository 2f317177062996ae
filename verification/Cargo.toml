[package]
name = "dockstat"
version = "0.1.0"
edition = "2021"
publish = false

[dependencies]
serde = { version = "*", features = ["derive"] }
serde_json = "*"
chrono = "*"
uuid = { version = "*", features = ["v4"] }
anyhow = "*"
dirs = "*"
tokio = { version = "*", features = ["rt-multi-thread", "macros", "sync", "time"] }
bollard = "*"
ssh2 = "*"
futures-util = "*"
async-trait = "*"
