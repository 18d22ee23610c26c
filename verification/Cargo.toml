[package]
name = "rustbox"
version = "0.1.0"
edition = "2021"
publish = false

[dependencies]
aes = "=0.8.4"
aes-gcm = "=0.10.3"
base64 = "=0.22.1"
boringtun = "=0.7.1"
clienthello = "=0.2.2"
crc32fast = "=1.5.4"
etherparse = "=0.21.0"
fast-socks5 = "=1.0.0"
h2 = "=0.4.20"
hickory-proto = "=0.25.2"
hickory-resolver = { version = "=0.25.2", features = ["https-aws-lc-rs", "quic-aws-lc-rs", "tls-aws-lc-rs", "webpki-roots"] }
hmac = "=0.12.1"
http = "=1.5.0"
httparse = "=1.10.1"
indexmap = "=2.14.2"
md-5 = "=0.10.6"
quinn = { version = "=0.11.12", default-features = false, features = ["runtime-tokio", "rustls-aws-lc-rs"] }
rand = "=0.9.5"
rustls = { version = "=0.23.46", default-features = false, features = ["std", "tls12", "aws_lc_rs"] }
rustls-pemfile = "=2.2.0"
serde = { version = "=1.0.229", features = ["derive"] }
serde_json = "=1.0.154"
sha1 = "=0.10.7"
sha2 = "=0.10.9"
shadowsocks = { version = "=1.24.0", features = ["aead-cipher-2022"] }
socks5-impl = { version = "=0.10.3", features = ["tokio"] }
tokio = { version = "=1.54.1", features = ["full"] }
tokio-rustls = { version = "=0.26.6", default-features = false, features = ["aws_lc_rs", "tls12"] }
uuid = "=1.29.0"
x509-parser = "=0.18.1"
