[package]
name = "vellcro"
version = "0.1.0"
edition = "2021"
publish = false

[dependencies]
alphanumeric-sort = "1"
anyhow = "1"
base64 = "0.22"
chrono = "0.4"
clap = { version = "4", features = ["derive"] }
dirs = "6"
dotenvy = "0.15"
globset = "0.4"
image = { version = "0.25", default-features = false, features = ["png", "jpeg"] }
indexmap = "2"
lava_torrent = "0.11"
metaflac = "0.2"
regex = "1"
reqwest = { version = "0.12", default-features = false, features = ["blocking", "json", "rustls-tls"] }
serde = { version = "1", features = ["derive"] }
serde_json = "1"
sha1 = "0.10"
toml = "0.8"
xxhash-rust = { version = "0.8", features = ["xxh64"] }
