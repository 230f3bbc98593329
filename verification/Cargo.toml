[package]
name = "gridspeak"
version = "0.1.0"
edition = "2021"
publish = false

[dependencies]
anyhow = "1"
axum = "0.7"
base64 = "0.22"
chrono = { version = "0.4", default-features = false, features = ["clock", "serde"] }
clap = { version = "4", default-features = false, features = ["std", "help", "usage", "derive"] }
dirs = "5"
futures = "0.3"
libp2p = { version = "0.54", default-features = false, features = ["tokio", "tcp", "noise", "yamux", "gossipsub", "mdns", "identify", "macros", "ed25519"] }
parking_lot = "0.12"
serde = { version = "1", features = ["derive"] }
serde_json = "1"
tokio = { version = "1", features = ["macros", "rt-multi-thread", "io-std", "io-util", "net", "signal", "sync"] }
toml = "0.8"
tracing = "0.1"
tracing-subscriber = "0.3"
uuid = { version = "1", features = ["v4", "serde"] }
whoami = { version = "1", default-features = false }
