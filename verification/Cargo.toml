[package]
name = "chords_server_rs"
version = "0.1.0"
edition = "2021"
publish = false

[dependencies]
midly = "0.5"
hound = "3.5"
serde = { version = "1", features = ["derive"] }
serde_json = "1"
axum = "0.7"
tokio = { version = "1", features = ["full"] }
tower-http = { version = "0.5", features = ["cors"] }
midir = "=0.9.1"
cpal = "=0.15.3"
rodio = { version = "=0.18.1", default-features = false, features = ["wav"] }
ureq = { version = "2", default-features = false }
mime_guess = "2"
