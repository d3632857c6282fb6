[package]
name = "gemini_srt"
version = "0.1.0"
edition = "2021"
publish = false

[dependencies]
mime_guess = "2"
serde = { version = "1", features = ["derive"] }
serde_json = "1"
tokio = { version = "1", features = ["rt", "macros", "time", "fs"] }
reqwest = { version = "0.12", default-features = false, features = ["json", "multipart"] }
keyring = "3"
dirs = "5"
uuid = { version = "1", features = ["v4"] }
