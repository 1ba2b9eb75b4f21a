[package]
name = "codex_runway"
version = "0.1.0"
edition = "2021"
publish = false

[dependencies]
serde = { version = "1", features = ["derive"] }
serde_json = "1"
base64 = "0.22"
sha2 = "0.10"
rand = "0.8"
chrono = { version = "0.4", default-features = false, features = ["std", "clock"] }
rust_decimal = "1"
uuid = { version = "1", features = ["v4"] }
walkdir = "2"
image = { version = "0.25", default-features = false, features = ["png"] }
reqwest = { version = "0.12", default-features = false, features = ["json"] }
tokio = { version = "1", features = ["rt", "sync", "macros"] }
log = "0.4"
env_logger = { version = "0.11", default-features = false }
thiserror = "1"
libc = "0.2"
windows-sys = { version = "0.59", features = ["Win32_UI_WindowsAndMessaging", "Win32_Foundation"] }
