[package]
name = "nara"
version = "0.1.0"
edition = "2021"
publish = false

[dependencies]
chacha20poly1305 = "*"
hkdf = "*"
sha2 = "*"
x25519-dalek = { version = "*", features = ["static_secrets", "getrandom"] }
ed25519-dalek = "*"
getrandom = "*"
bitcode = "*"
bytes = "*"
tokio = { version = "*", features = ["full"] }
tokio-tungstenite = "*"
futures-util = "*"
serde = { version = "*", features = ["derive"] }
serde_json = "*"
toml = "*"
snafu = "*"
nanorand = "*"
glam = "*"
dashmap = "*"
mlua = { version = "*", features = ["lua54", "vendored"] }
