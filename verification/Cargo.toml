[package]
name = "rei"
version = "0.1.0"
edition = "2021"
publish = false

[dependencies]
regex = "*"
url = "*"
gemini-fetch = "*"
dirs = "*"
tokio = { version = "*", features = ["macros", "rt-multi-thread"] }
