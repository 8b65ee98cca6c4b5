[package]
name = "videodownloader"
version = "0.1.0"
edition = "2021"
publish = false

[dependencies]
yt-dlp = "*"
dirs = "*"
tokio = { version = "1", features = ["macros", "rt-multi-thread"] }
