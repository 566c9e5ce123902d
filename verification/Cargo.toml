[package]
name = "onezipper"
version = "0.1.0"
edition = "2021"
publish = false

[dependencies]
crc32fast = "1"
time = { version = "0.3", features = ["local-offset", "macros"] }
zip = { version = "*", default-features = false, features = ["deflate", "time"] }
