[package]
name = "lighthouse_core"
version = "0.1.0"
edition = "2021"
publish = false

[dependencies]
btleplug = "*"
directories = "*"
ratatui = "*"
serde_json = "*"
tokio = { version = "*", features = ["rt-multi-thread", "macros", "time"] }
uuid = "*"
