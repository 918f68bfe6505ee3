[package]
name = "passman"
version = "0.1.0"
edition = "2021"
publish = false

[dependencies]
aes-gcm = "0.10"
pbkdf2 = "0.12"
sha2 = "0.10"
hex = "0.4"
rusqlite = { version = "0.31", features = ["bundled"] }
cliclack = "0.3"
colored = "2"
anyhow = "1"
thiserror = "1"

[dev-dependencies]
typenum = "1"
