[package]
name = "mx_replay_uploader"
version = "0.1.0"
edition = "2021"
publish = false

[dependencies]
xml-rs = "0.8"
scraper = "*"
reqwest = { version = "0.12", default-features = false, features = ["rustls-tls", "cookies", "json", "multipart", "stream"] }
serde = { version = "1", features = ["derive"] }
eframe = { version = "*", default-features = false, features = ["glow", "x11"] }
egui = "*"
egui_extras = { version = "*", default-features = false }
notify = "*"
poll-promise = { version = "*", features = ["tokio"] }
tokio = { version = "1", features = ["rt-multi-thread", "macros"] }
preferences = "*"
