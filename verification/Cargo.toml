[package]
name = "anteater"
version = "0.1.0"
edition = "2021"
publish = false

[dependencies]
bpaf = { version = "0.9", features = ["derive"] }
dns-lookup = "2"
futures = "0.3"
ipnetwork = "=0.20.0"
pnet = "=0.35.0"
serde = { version = "1", features = ["derive"] }
serde_json = "1"
tokio = { version = "=1.53.2", features = ["rt-multi-thread", "macros", "net", "time", "io-util", "sync"] }
