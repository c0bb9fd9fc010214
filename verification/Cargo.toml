[package]
name = "solstice"
version = "0.1.0"
edition = "2021"
publish = false

[dependencies]
uuid = { version = "*", features = ["v4"] }
time = { version = "*", features = ["formatting"] }
axum = "*"
tokio = { version = "*", features = ["rt-multi-thread", "macros", "signal", "net", "sync"] }
serde = { version = "*", features = ["derive"] }
serde_json = "*"
