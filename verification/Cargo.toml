[package]
name = "slidetrace"
version = "0.1.0"
edition = "2021"
publish = false

[dependencies]
serde = { version = "1", features = ["derive"] }
serde_json = "1"
hound = "3"
image = { version = "0.25", default-features = false, features = ["png"] }
dirs = "5"
