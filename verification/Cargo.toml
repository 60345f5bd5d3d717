[package]
name = "fretboard"
version = "0.1.0"
edition = "2021"
publish = false

[dependencies]
cpal = "0.17"
hound = "3"
ringbuf = "0.4"
serde = { version = "1", features = ["derive"] }
web-time = "1"
rustfft = "6"
realfft = "3"
