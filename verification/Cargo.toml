[package]
name = "siphon"
version = "0.1.0"
edition = "2021"
publish = false

[dependencies]
serde = { version = "=1.0.229", features = ["derive"] }
serde_json = "=1.0.154"
image = { version = "=0.25.10", default-features = false, features = ["png"] }
log = "=0.4.35"
env_logger = { version = "=0.11.11", default-features = false }
dirs = "=7.0.0"
kanal = "=0.1.1"
crossbeam-channel = "=0.5.17"
futures-util = { version = "=0.3.34", features = ["std", "sink", "async-await-macro"] }
compio = { version = "=0.19.2", default-features = false, features = ["runtime", "polling", "time", "fs", "net", "ws", "ws-connect", "rustls", "webpki-roots", "ring"] }
cyper = { version = "=0.9.0", default-features = false, features = ["rustls", "stream"] }
egui = { version = "=0.37.0", default-features = false, features = ["default_fonts"] }
raw-window-handle = "=0.6.2"
tray-icon = { version = "=0.26.1", default-features = false, features = ["ksni"] }
app-single-instance = "=0.1.0"
notify-rust = { version = "=4.18.2", default-features = false, features = ["z"] }
