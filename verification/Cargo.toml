[package]
name = "wakascribe"
version = "0.1.0"
edition = "2021"
publish = false

[dependencies]
serde = { version = "*", features = ["derive"] }
serde_json = "*"
chrono = "*"
uuid = { version = "*", features = ["v4"] }
hound = "*"
rubato = "*"
cpal = "*"
rustfft = "*"
ndarray = "*"
