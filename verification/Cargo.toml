[package]
name = "audio_chat"
version = "0.1.0"
edition = "2021"
publish = false

[dependencies]
base64 = "*"
clap = { version = "*", features = ["derive"] }
cpal = "*"
crossbeam-channel = "*"
futures-util = "*"
reqwest = { version = "*", default-features = false, features = ["json", "stream"] }
rustyline = "*"
serde = { version = "*", features = ["derive"] }
serde_json = "*"
tokio = { version = "*", features = ["rt-multi-thread", "macros", "time"] }

[dev-dependencies]
hound = "*"
