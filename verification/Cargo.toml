[package]
name = "remoteapp"
version = "0.1.0"
edition = "2021"
publish = false

[dependencies]
argon2 = "=0.5.3"
base64 = "=0.22.1"
chacha20poly1305 = "=0.10.1"
getrandom = "=0.3.4"
sha2 = "=0.10.9"
uuid = { version = "=1.29.0", features = ["v4"] }
serde = { version = "=1.0.229", features = ["derive"] }
serde_json = "=1.0.154"
thiserror = "=2.0.21"
zeroize = { version = "=1.9.1", features = ["derive"] }
tokio = { version = "=1.54.1", features = ["sync", "rt", "macros", "time"] }
tokio-postgres = "=0.7.18"
tokio-postgres-rustls = "=0.13.0"
rustls = { version = "=0.23.46", default-features = false, features = ["ring", "std", "tls12"] }
rustls-pemfile = "=2.2.0"
webpki-roots = "=0.26.11"
jni = "=0.21.1"
ndk-context = "=0.1.1"
windows-sys = { version = "=0.59.0", features = ["Win32_Foundation", "Win32_Security_Cryptography", "Win32_Storage_FileSystem"] }

[dev-dependencies]
i-slint-common = "1"
