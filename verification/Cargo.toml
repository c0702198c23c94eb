[package]
name = "furdb"
version = "0.1.0"
edition = "2021"
publish = false

[dependencies]
tonic = "*"
tonic-prost = "*"
prost = "*"
tokio = { version = "1", features = ["rt-multi-thread", "macros", "signal", "net"] }
log = "0.4"
serde = { version = "1", features = ["derive"] }
serde_json = "1"
