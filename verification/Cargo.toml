[package]
name = "flydigictl"
version = "0.1.2"
edition = "2021"
publish = false

[dependencies]
argh = "*"
env_logger = "*"
iced = { version = "0.14", default-features = false, features = ["canvas", "tiny-skia", "thread-pool", "wayland"] }
inotify = "*"
log = "*"
nix = { version = "*", features = ["poll"] }
serde = { version = "1", features = ["derive"] }
serde_json = "1"
thiserror = "*"
toml = "*"
