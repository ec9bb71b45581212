[package]
name = "echo_note"
version = "0.1.0"
edition = "2021"
publish = false

[dependencies]
anyhow = "1"
chrono = { version = "0.4", default-features = false, features = ["std"] }
serde = { version = "1", features = ["derive"] }
serde_json = "1"
log = "0.4"
hound = "3.5"
futures-util = "0.3"
tokio = { version = "1", features = ["rt", "rt-multi-thread", "macros"] }
reqwest = { version = "0.12", default-features = false, features = ["json", "stream", "rustls-tls"] }
sqlx = { version = "0.8", default-features = false, features = ["runtime-tokio", "sqlite", "chrono"] }
keyring = "3"
cpal = "0.15"
whisper-rs = "0.16"
ort = { version = "2.0.0-rc.10", default-features = false, features = ["ndarray", "std"] }
ndarray = "0.16"
