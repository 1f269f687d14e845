[package]
name = "typeless"
version = "0.1.0"
edition = "2021"
publish = false

[dependencies]
anyhow = "1"
cpal = "*"
dirs = "*"
futures-util = "*"
hound = "*"
parking_lot = "0.12"
reqwest = { version = "*", default-features = false, features = ["rustls-tls", "stream"] }
rubato = "0.15"
serde = { version = "1", features = ["derive"] }
serde_json = "1"
tokio = { version = "1", features = ["time"] }
windows = { version = "0.58", features = ["Win32_Foundation", "Win32_UI_WindowsAndMessaging", "Win32_System_DataExchange", "Win32_System_Memory", "Win32_UI_Input_KeyboardAndMouse"] }
zip = { version = "*", default-features = false, features = ["deflate"] }
