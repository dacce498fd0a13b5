[package]
name = "bk_orchestrator"
version = "0.1.0"
edition = "2021"
publish = false

[dependencies]
uuid = { version = "*", features = ["v4"] }
serde = { version = "*", features = ["derive"] }
serde_json = "*"
tokio = { version = "*", features = ["rt-multi-thread", "macros", "time", "sync", "io-util"] }
reqwest = { version = "*", default-features = false, features = ["json", "rustls-tls"] }
bollard = "*"
futures-util = "*"
clap = { version = "*", features = ["derive", "env"] }
