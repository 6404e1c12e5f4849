[package]
name = "lordserver"
version = "0.1.0"
edition = "2021"
publish = false

[dependencies]
clap = "4"
futures-channel = "0.3"
futures-util = { version = "0.3", default-features = false, features = ["sink", "std"] }
serde_json = "1"
serialport = { version = "4", default-features = false }
tokio = { version = "1", features = ["macros", "net", "rt-multi-thread"] }
tokio-tungstenite = "*"
