[package]
name = "wayclip"
version = "0.1.0"
edition = "2021"
publish = false

[dependencies]
cocoon = "0.4"
infer = "0.16"
clap = { version = "4", features = ["derive"] }
dirs = "5"
evdev = "0.12"
figment = { version = "0.10", features = ["toml"] }
interprocess = "1"
machine-uid = "0.5"
os_pipe = "1"
rand = "0.8"
serde = { version = "1", features = ["derive"] }
wayland-client = "0.31"
wayland-protocols = { version = "0.32", features = ["client", "staging"] }
wayland-protocols-wlr = { version = "0.3", features = ["client"] }
wl-clipboard-rs = "0.8"
