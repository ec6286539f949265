[package]
name = "niri-bridge"
version = "0.3.0-beta.3"
edition = "2021"
publish = false

[dependencies]
anyhow = "=1.0.104"
clap = { version = "=4.6.7", features = ["derive"] }
evdev = "=0.13.2"
futures-util = "=0.3.34"
libc = "=0.2.191"
rcgen = { version = "=0.14.10", default-features = false, features = ["crypto", "pem", "ring"] }
ring = "=0.17.14"
rustls = { version = "=0.23.46", default-features = false, features = ["ring", "std"] }
serde = { version = "=1.0.229", features = ["derive"] }
serde_json = "=1.0.154"
tempfile = "=3.27.0"
time = "=0.3.55"
tokio = { version = "=1.54.1", features = ["full"] }
tokio-rustls = { version = "=0.26.6", default-features = false, features = ["ring"] }
toml = "=1.1.8"
toml_edit = "=0.25.17"
wayland-client = "=0.31.15"
wayland-protocols = { version = "=0.32.13", features = ["client", "staging", "unstable"] }
wayland-protocols-wlr = { version = "=0.3.12", features = ["client"] }
zbus = { version = "=5.19.0", default-features = false, features = ["tokio"] }
