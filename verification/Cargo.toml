[package]
name = "hyprcursor-rs"
version = "0.1.0"
edition = "2021"
publish = false

[dependencies]
png = "0.17"
resvg = "*"
thiserror = "1"
zip = { version = "*", default-features = false, features = ["deflate"] }
