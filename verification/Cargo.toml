[package]
name = "floatnote"
version = "0.5.0"
edition = "2021"
publish = false

[dependencies]
chrono = "0.4"
dirs = "6"
serde = { version = "1", features = ["derive"] }
serde_json = "1"
window-vibrancy = "0.6"
objc2 = "0.6"
objc2-app-kit = { version = "0.3", default-features = false, features = ["std", "NSResponder", "NSWindow", "NSPanel"] }
