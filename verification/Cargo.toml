[package]
name = "tplayer"
version = "0.1.0"
edition = "2021"
publish = false

[dependencies]
tokio = { version = "=1.54.1", features = ["sync", "rt-multi-thread", "macros", "net", "time"] }
symphonia = { version = "=0.5.5", features = ["mp3", "aac"] }
cpal = "=0.15.3"
anyhow = "=1.0.104"
axum = "=0.7.9"
serde = { version = "=1.0.229", features = ["derive"] }
tower = { version = "=0.4.13", features = ["util"] }
tower-http = { version = "=0.5.2", features = ["fs", "cors"] }
urlencoding = "=2.1.3"
env_logger = "=0.11.11"
