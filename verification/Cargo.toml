[package]
name = "thoth"
version = "0.1.0"
edition = "2021"
publish = false

[dependencies]
regex = "=1.13.1"
dirs = "=7.0.0"
uuid = { version = "=1.29.0", features = ["v4"] }
chrono = { version = "=0.4.45", default-features = false, features = ["clock", "std"] }
rphonetic = "=4.0.0"
unicode-normalization = "=0.1.26"
strsim = "=0.11.1"
getrandom = "=0.3.4"
serde = { version = "=1.0.229", features = ["derive"] }
serde_json = "=1.0.154"
webrtc-vad = "=0.4.0"
parking_lot = "=0.12.5"
subtle = "2"
