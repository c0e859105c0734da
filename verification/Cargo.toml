[package]
name = "transcription_uploader"
version = "0.1.0"
edition = "2021"
publish = false

[dependencies]
dotenv = "*"
notify = "*"
reqwest = { version = "*", default-features = false, features = ["multipart"] }
tokio = { version = "*", default-features = false, features = ["rt-multi-thread", "sync", "time"] }
