[package]
name = "wt_clipper"
version = "0.1.0"
edition = "2021"
publish = false

[dependencies]
anyhow = "=1.0.104"
ashpd = "=0.10.3"
async-trait = "=0.1.92"
chrono = "=0.4.45"
clap = { version = "=4.6.7", features = ["derive"] }
egui = "0.31"
egui_extras = { version = "0.31", default-features = false, features = ["file", "image"] }
enumflags2 = "=0.7.12"
fs2 = "=0.4.3"
gstreamer = "=0.23.7"
libc = "=0.2.191"
reqwest = { version = "=0.12.28", default-features = false, features = ["json"] }
serde = { version = "=1.0.229", features = ["derive"] }
serde_json = "=1.0.154"
tokio = { version = "=1.54.1", features = ["full"] }
toml = "=0.8.23"
tracing = "=0.1.44"
tracing-subscriber = { version = "=0.3.23", features = ["env-filter"] }
uuid = { version = "=1.29.0", features = ["v4"] }
walkdir = "=2.5.0"
x11rb = "=0.13.2"
