[package]
name = "rsave"
version = "0.1.0"
edition = "2021"
publish = false

[dependencies]
aes-gcm = "0.10"
argon2 = "0.5"
base64 = "0.22"
chrono = "0.4"
clap = { version = "4", features = ["derive"] }
dialoguer = "0.11"
dirs = "*"
libc = "0.2"
nix = { version = "*", features = ["signal"] }
rand = "0.9"
serde = { version = "1", features = ["derive"] }
toml = "*"
uuid = { version = "1", features = ["v4"] }
