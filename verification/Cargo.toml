[package]
name = "corpo_drone"
version = "0.1.0"
edition = "2021"
publish = false

[dependencies]
serde_json = "1"
uuid = { version = "1", features = ["v4"] }
serde = { version = "1", features = ["derive"] }
anyhow = "1"
clap = { version = "4", features = ["derive"] }
tracing = "0.1"
tracing-subscriber = { version = "0.3", features = ["env-filter", "json"] }
tokio = { version = "1", features = ["rt-multi-thread", "macros", "process", "io-util", "sync", "time", "fs", "signal", "net"] }
crossbeam-channel = "0.5"
parking_lot = "0.12"
libc = "0.2"
futures-util = { version = "0.3", default-features = false, features = ["std"] }
rubato = "0.15"
cpal = "0.15"
actix-web = { version = "4", default-features = false, features = ["macros"] }
actix-ws = "0.3"
reqwest = { version = "0.12", default-features = false, features = ["json"] }
rfd = { version = "0.15", default-features = false, features = ["xdg-portal", "tokio"] }
