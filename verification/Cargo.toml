[package]
name = "osu_editor"
version = "0.1.0"
edition = "2021"
publish = false

[dependencies]
zip = { version = "=2.6.1", default-features = false, features = ["deflate"] }
serde = { version = "=1.0.229", features = ["derive"] }
serde_json = "=1.0.154"
anyhow = "1"
cpal = "0.15"
ringbuf = "0.4"
crossbeam-channel = "0.5"
symphonia = { version = "0.5", features = ["mp3"] }
soundtouch = "*"
