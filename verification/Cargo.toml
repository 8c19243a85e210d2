[package]
name = "seedpass"
version = "0.1.0"
edition = "2021"
publish = false

[dependencies]
aes-gcm = "0.10"
argon2 = "0.5"
base64 = "0.22"
data-encoding = "2"
hkdf = "0.12"
hmac = "0.12"
rand = "0.8"
sha2 = "0.10"
subtle = "2"
time = { version = "0.3", features = ["parsing", "formatting"] }
anyhow = "1"
clap = { version = "4", features = ["derive"] }
directories = "5"
rpassword = "7"
serde = { version = "1", features = ["derive"] }
serde_json = "1"
serde_yaml = "0.9"
tar = "0.4"
thiserror = "1"
ulid = "1"
zeroize = { version = "1", features = ["derive"] }
