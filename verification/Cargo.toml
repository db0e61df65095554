[package]
name = "bolt"
version = "0.1.0"
edition = "2021"
publish = false

[dependencies]
node-semver = "2"
sha2 = "0.10"
sha1 = "0.10"
base64 = "0.22"
hex = "0.4"
flate2 = "1"
tar = "0.4"
serde = { version = "1", features = ["derive"] }
serde_json = "1"
clap = { version = "4", features = ["derive"] }
tokio = { version = "1", features = ["macros", "rt-multi-thread", "sync", "time"] }
reqwest = { version = "0.12", default-features = false, features = ["rustls-tls"] }
futures = "0.3"
directories = "5"
pathdiff = "0.2"
anyhow = "1"
indicatif = "0.17"
tracing = "0.1"
