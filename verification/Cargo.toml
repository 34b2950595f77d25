[package]
name = "term3d"
version = "0.1.0"
edition = "2021"
publish = false

[dependencies]
termion = "*"
image = { version = "*", default-features = false, features = ["png", "jpeg"] }
serde = { version = "1", features = ["derive"] }
serde_json = "1"
clap = { version = "4", features = ["derive"] }
