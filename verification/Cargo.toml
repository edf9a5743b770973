[package]
name = "sysdiff"
version = "0.1.0"
edition = "2021"
publish = false

[dependencies]
fancy-regex = "*"
md5 = "*"
log = "*"
env_logger = "*"
reqwest = "*"
tokio = { version = "*", features = ["rt-multi-thread"] }
flate2 = "*"
tar = "*"
xz2 = "*"
walkdir = "*"
guestfs = "*"
