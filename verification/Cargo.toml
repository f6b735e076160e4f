[package]
name = "retinue"
version = "0.1.0"
edition = "2021"
publish = false

[dependencies]
ed25519-dalek = { version = "2", default-features = false, features = ["alloc", "zeroize"] }
x25519-dalek = { version = "2", default-features = false, features = ["static_secrets", "zeroize"] }
sha2 = { version = "0.10", default-features = false }
hkdf = { version = "0.12", default-features = false }
heapless = "0.9"
getrandom = "0.2"
tokio = { version = "1", features = ["io-util", "macros", "net", "rt", "rt-multi-thread", "sync", "time"] }
