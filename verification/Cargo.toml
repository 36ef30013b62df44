[package]
name = "voice_core"
version = "0.1.0"
edition = "2021"
publish = false

[dependencies]
hound = "=3.5.1"
serde = { version = "=1.0.229", features = ["derive"] }
serde_json = "=1.0.154"
uuid = { version = "=1.29.0", features = ["v4"] }
whisper-rs = "=0.14.4"
enigo = "=0.6.1"
reqwest = { version = "=0.12.28", features = ["stream"] }
futures-util = "=0.3.34"
windows = { version = "=0.58.0", features = ["Win32_Foundation", "Win32_UI_WindowsAndMessaging"] }
