[package]
name = "rwpspread"
version = "0.1.0"
edition = "2021"
publish = false

[dependencies]
blake3 = "=1.8.7"
clap = { version = "=4.6.7", features = ["derive"] }
crossbeam-channel = "=0.5.17"
glob = "=0.3.4"
image = { version = "=0.25.10", default-features = false, features = ["png", "jpeg"] }
inotify = { version = "=0.11.5", default-features = false }
material-colors = "=0.4.2"
rand = "=0.10.3"
rayon = "=1.12.0"
serde = { version = "=1.0.229", features = ["derive"] }
serde_json = "=1.0.151"
smithay-client-toolkit = { version = "=0.21.1", default-features = false }
wayland-client = "=0.31.15"
