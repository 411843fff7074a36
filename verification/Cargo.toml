[package]
name = "sockudo_ws"
version = "0.1.0"
edition = "2021"
publish = false

[dependencies]
axum = "=0.8.9"
base64 = "=0.22.1"
bytes = "=1.12.1"
compio = { version = "=0.19.2", features = ["macros", "net", "io", "io-compat", "bytes", "quic", "h3", "time", "ring"] }
dashmap = "=6.2.1"
fastrand = "=2.5.0"
flate2 = { version = "=1.1.10", default-features = false, features = ["zlib-rs"] }
futures-core = "=0.3.34"
futures-sink = "=0.3.34"
futures-util = { version = "=0.3.34", features = ["sink"] }
getrandom = "=0.3.4"
h2 = "=0.4.20"
h3 = "=0.0.8"
h3-quinn = "=0.0.10"
http = "=1.5.0"
httparse = "=1.10.1"
hyper = { version = "=1.12.0", features = ["full"] }
hyper-util = { version = "=0.1.21", features = ["tokio"] }
libz-rs-sys = "=0.6.8"
pin-project-lite = "=0.2.17"
quanta = "=0.12.6"
quinn = { version = "=0.11.12", default-features = false, features = ["runtime-tokio", "rustls-ring"] }
rand = "=0.9.5"
rustls = { version = "=0.23.46", default-features = false, features = ["ring", "std", "tls12"] }
sha1 = "=0.10.7"
simdutf8 = "=0.1.5"
tokio = { version = "=1.54.1", features = ["full"] }
tokio-uring = "=0.5.0"
tokio-util = { version = "=0.7.20", features = ["compat"] }
