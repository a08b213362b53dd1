[package]
name = "csswitch_gateway"
version = "0.2.0"
edition = "2021"
publish = false

[dependencies]
getrandom = "0.2"
hmac = "0.12"
libc = "0.2"
regex = "1"
reqwest = { version = "0.12", default-features = false, features = ["blocking", "rustls-tls"] }
ring = "0.17"
serde = { version = "1", features = ["derive"] }
serde_json = { version = "1", features = ["preserve_order"] }
sha2 = "0.10"
url = "2"
zeroize = "1"
