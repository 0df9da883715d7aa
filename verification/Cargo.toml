[package]
name = "signal_relay"
version = "0.1.0"
edition = "2021"
publish = false

[dependencies]
serde = { version = "*", features = ["derive"] }
serde_json = "*"
clap = { version = "*", features = ["derive"] }
tokio = { version = "*", features = ["full"] }
axum = "*"
hyper = { version = "*", features = ["full"] }
hyper-util = { version = "*", features = ["full"] }
http-body-util = "*"
tower = { version = "*", features = ["util"] }
tower-http = { version = "*", features = ["fs"] }
socketioxide = "*"
