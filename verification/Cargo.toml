[package]
name = "cortana"
version = "0.2.0"
edition = "2021"
publish = false

[dependencies]
serde = { version = "1", features = ["derive"] }
serde_json = "1"
toml = "0.8"
directories = "5"
ratatui = "0.29"
crossterm = "0.28"
reqwest = { version = "0.12", default-features = false, features = ["blocking", "json"] }
tts = "0.26"
image = { version = "0.25", default-features = false, features = ["png", "jpeg"] }
tiny-skia = "0.11"
base64 = "0.22"
