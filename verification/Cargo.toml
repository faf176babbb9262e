[package]
name = "samples"
version = "0.1.0"
edition = "2021"
publish = false

[dependencies]
base64 = "0.22"
pcm = "*"
serde = "1"
thiserror = "2"
