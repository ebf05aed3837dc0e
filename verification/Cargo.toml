[package]
name = "bridge_watcher"
version = "0.1.0"
edition = "2021"
publish = false

[dependencies]
sha2 = "*"
hex = "*"
serde = { version = "*", features = ["derive"] }
serde_json = "*"
reqwest = { version = "*", default-features = false, features = ["json", "rustls-tls"] }
tokio = { version = "*", features = ["macros", "rt-multi-thread", "time"] }
tonic = "*"
rustls = "*"
dotenvy = "*"
zcash_client_backend = { version = "*", features = ["lightwalletd-tonic", "orchard"] }
zcash_primitives = "*"
zcash_protocol = "*"
