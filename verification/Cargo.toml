[package]
name = "soundcloud_desktop"
version = "0.1.0"
edition = "2021"
publish = false

[dependencies]
ogg = "0.9"
tokio = { version = "1", features = ["fs", "process", "time", "sync", "rt", "macros"] }
reqwest = { version = "0.12", default-features = false, features = ["rustls-tls"] }
thiserror = "2"
tracing = "0.1"
serde = { version = "1", features = ["derive"] }
biquad = "0.4"
axum = { version = "0.7", default-features = false }
audiopus = "0.2"
rodio = "0.20"
souvlaki = "0.7"
raw-window-handle = "0.6"
