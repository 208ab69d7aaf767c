[package]
name = "edgeshield"
version = "0.1.0"
edition = "2021"
publish = false

[dependencies]
pnet = "0.35"
sha2 = "0.10"
hex = "0.4"
subtle = "2"
toml = "0.8"
serde = { version = "1", features = ["derive"] }
serde_json = "1"
chrono = { version = "0.4", default-features = false, features = ["clock", "std", "serde"] }
rand = "0.8"
mac_address = "1"
tokio = { version = "1", features = ["full"] }
axum = "0.7"
rusqlite = { version = "0.31", features = ["bundled"] }
pcap = "2"
clap = { version = "4", features = ["derive", "env"] }
dialoguer = "0.11"
reqwest = { version = "0.12", default-features = false, features = ["rustls-tls"] }
rumqttc = "0.24"
lettre = { version = "0.11", default-features = false, features = ["builder", "smtp-transport", "tokio1", "tokio1-rustls-tls"] }
tracing = "0.1"
tracing-subscriber = { version = "0.3", features = ["json", "env-filter"] }
anyhow = "1"
thiserror = "1"
async-trait = "0.1"
bytes = "1"
dashmap = "5"
libc = "0.2"
nix = { version = "0.29", features = ["user"] }
