[package]
name = "tictactoe"
version = "0.1.0"
edition = "2021"
publish = false

[dependencies]
async-std = "1"
async-tungstenite = "0.23"
fastrand = "=2.5.0"
futures = "0.3"
serde = { version = "=1.0.229", features = ["derive"] }
serde_json = "=1.0.154"
tungstenite = "=0.20.1"
