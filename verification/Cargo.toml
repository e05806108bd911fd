[package]
name = "kademlia"
version = "0.1.0"
edition = "2021"
publish = false

[dependencies]
rand = "=0.8.8"
serde = { version = "=1.0.229", features = ["derive"] }
serde_json = "=1.0.154"
tokio = { version = "=1.54.1", features = ["net", "rt", "sync", "time"] }

[dev-dependencies]
sha1 = "=0.10.7"
