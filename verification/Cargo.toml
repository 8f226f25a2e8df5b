[package]
name = "niri-groom"
version = "0.1.0"
edition = "2021"
publish = false

[dependencies]
kdl = "6"
serde = { version = "1", features = ["derive"] }
serde_json = "1"
gtk4 = "*"
gtk4-layer-shell = "*"
async-channel = "2"
