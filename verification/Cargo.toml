[package]
name = "openmeetnote"
version = "0.1.0"
edition = "2021"
publish = false

[dependencies]
sha2 = "=0.10.9"
tokio-tungstenite = "=0.24.0"
futures-util = "0.3"
tokio = { version = "1", features = ["rt-multi-thread", "macros", "sync", "time", "net"] }
serde = { version = "1", features = ["derive"] }
serde_json = "1"
thiserror = "1"
rusqlite = { version = "0.32", features = ["bundled"] }
hound = "3"
keyring = "3"
rubato = "3.0"
tempfile = "3"
cpal = "0.18"
screencapturekit = "1.5"
wasapi = "*"
