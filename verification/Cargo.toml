[package]
name = "kehikko-desktop"
version = "0.1.0"
edition = "2021"
publish = false

[dependencies]
libc = "0.2"
objc2 = "0.6"
tauri = { version = "2", default-features = false, features = ["wry"] }
