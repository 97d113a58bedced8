[package]
name = "aether_proxy"
version = "0.1.0"
edition = "2021"
publish = false

[dependencies]
anyhow = "1"
base64 = "=0.22.1"
bytes = "1"
clap = { version = "4", features = ["derive", "env"] }
futures-util = { version = "0.3", default-features = false }
hex = "=0.4.3"
hmac = "=0.12.1"
http-body-util = "0.1"
hyper = { version = "=1.12.0", features = ["http1", "server", "client"] }
hyper-util = { version = "0.1", features = ["tokio"] }
libc = "0.2"
rcgen = "=0.13.2"
reqwest = { version = "=0.12.28", default-features = false, features = ["json", "rustls-tls", "stream"] }
rustls-pemfile = "=2.2.0"
serde = { version = "1", features = ["derive"] }
serde_json = "1"
sha2 = "=0.10.9"
subtle = "=2.6.1"
sysinfo = "=0.39.6"
tokio = { version = "1", features = ["full"] }
tokio-rustls = { version = "=0.26.6", default-features = false, features = ["ring", "logging", "tls12"] }
toml = "0.8"

[dev-dependencies]
