[package]
name = "digitshot"
version = "0.1.0"
edition = "2021"
publish = false

[dependencies]
image = { version = "0.25", default-features = false, features = ["png"] }
imageproc = { version = "0.27", default-features = false }
chrono = "0.4"
base64 = "0.22"
urlencoding = "2"
serde = { version = "1", features = ["derive"] }
arboard = { version = "3", features = ["image-data"] }
xcap = "0.9"
