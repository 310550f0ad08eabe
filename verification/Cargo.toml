[package]
name = "tabscreen"
version = "0.1.0"
edition = "2021"
publish = false

[dependencies]
anyhow = "1"
clap = { version = "4", features = ["derive"] }
data-encoding = "2"
env_logger = "0.11"
gstreamer = "0.23"
gstreamer-app = "0.23"
gstreamer-video = "0.23"
hmac = "0.12"
ksni = { version = "0.3", features = ["blocking"] }
libc = "0.2"
log = "0.4"
rand = "0.8"
rcgen = "0.13"
rustls = { version = "0.23", default-features = false, features = ["ring", "std", "tls12"] }
serde_json = "1"
sha2 = "0.10"
wayland-client = "0.31"
wayland-scanner = "0.31"
