[package]
name = "captcha"
version = "0.1.0"
edition = "2021"
publish = false

[dependencies]
base64 = "*"
hound = "*"
image = { version = "*", default-features = false, features = ["png"] }
lodepng = "*"
rand = "*"
serde_json = "*"
