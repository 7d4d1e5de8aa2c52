[package]
name = "atuin_core"
version = "0.1.0"
edition = "2021"
publish = false

[dependencies]
rusty_paseto = "*"
rusty_paserk = "*"
base64 = "*"
uuid = { version = "*", features = ["v4"] }

[dev-dependencies]
rmp-serde = "*"
