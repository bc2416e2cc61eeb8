[package]
name = "m3u_viewer"
version = "0.1.0"
edition = "2021"
publish = false

[dependencies]
md5 = "*"
reqwest = { version = "*", default-features = false, features = ["blocking"] }
