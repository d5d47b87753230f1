[package]
name = "tess"
version = "0.1.0"
edition = "2021"
publish = false

[dependencies]
similar = "*"
encoding_rs = "*"
regex = "*"
unicode-width = "*"
serde = { version = "1", features = ["derive"] }
toml = "*"
clap = { version = "4", features = ["derive"] }
clap_mangen = "*"
crossterm = "*"
image = { version = "*", default-features = false, features = ["png", "gif", "webp"] }
