[package]
name = "xpm"
version = "0.1.0"
edition = "2021"
publish = false

[dependencies]
quick-xml = "0.37"
serde = { version = "1", features = ["derive"] }
serde_json = "1"
flate2 = "1"
image = { version = "0.25", default-features = false, features = ["png"] }
chrono = "0.4"
tokio = { version = "1", features = ["rt-multi-thread", "macros", "sync", "time"] }
tracing = "0.1"
tracing-subscriber = "0.3"
async-trait = "0.1"
libc = "0.2"
open = "5"
notify-rust = "4"
ksni = "0.3"
alpm = "4"
libflatpak = "*"
