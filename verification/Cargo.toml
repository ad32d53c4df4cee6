[package]
name = "p2p_bench"
version = "0.1.0"
edition = "2021"
publish = false

[dependencies]
anyhow = "1"
futures = { version = "0.3", default-features = false, features = ["std"] }
libp2p = { version = "=0.56.0", default-features = false, features = ["ed25519", "gossipsub", "noise", "quic", "tcp", "websocket", "yamux"] }
libp2p-quic = { version = "=0.13.1", features = ["tokio"] }
libp2p-swarm = { version = "=0.47.1", features = ["tokio"] }
libp2p-tcp = { version = "=0.44.1", features = ["tokio"] }
libp2p-webrtc = { version = "0.9.0-alpha.1", features = ["tokio"] }
rand = "0.8"
sysinfo = { version = "=0.33.1", default-features = false, features = ["system"] }
tokio = { version = "1", features = ["rt-multi-thread", "macros", "time", "io-std", "io-util"] }
tracing = "0.1"
tracing-subscriber = { version = "0.3", default-features = false, features = ["fmt", "env-filter"] }
