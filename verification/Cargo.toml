[package]
name = "inertia"
version = "0.1.0"
edition = "2021"
publish = false

[dependencies]
serde = { version = "=1.0.229", features = ["derive"] }
serde_json = "=1.0.154"
sha2 = "=0.10.9"
brotli-decompressor = "=4.0.3"
mime_guess = "=2.0.5"
fluent-uri = "=0.4.1"
http = "=1.5.0"
bytes = "=1.12.1"
serde_urlencoded = "=0.7.1"
rocket = "=0.5.2"
cookie = { version = "=0.18.2", features = ["private", "key-expansion"] }

[dev-dependencies]
brotli = "*"
