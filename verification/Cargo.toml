[package]
name = "patronus"
version = "1.0.0"
edition = "2021"
publish = false

[dependencies]
aes-gcm = "0.10"
anyhow = "1"
blake3 = "1"
clap = { version = "4", features = ["derive"] }
data-encoding = "2"
directories = "5"
ed25519-dalek = "2"
get_if_addrs = "0.5"
hkdf = "0.12"
rand = "0.8"
ratatui = "0.29"
serde = { version = "1", features = ["derive"] }
serde_json = "1"
sha2 = "0.10"
socket2 = { version = "0.5", features = ["all"] }
ssh-key = { version = "0.6", features = ["ed25519"] }
tokio = { version = "1", features = ["full"] }
tokio-util = "0.7"
x25519-dalek = "2"
zstd = "0.13"
