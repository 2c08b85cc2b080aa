[package]
name = "ring-wallet"
version = "0.1.0"
edition = "2021"
publish = false

[dependencies]
anyhow = "=1.0.104"
async-trait = "=0.1.92"
axum = "=0.8.9"
bip0039 = "=0.12.0"
minreq = { version = "=2.14.1", features = ["https"] }
orchard = "=0.15.5"
rand = "=0.8.8"
rusqlite = { version = "=0.37.0", features = ["bundled"] }
rustls = { version = "=0.23.46", default-features = false, features = ["ring", "std"] }
serde = { version = "=1.0.229", features = ["derive"] }
serde_json = "=1.0.154"
tokio = { version = "=1.54.1", features = ["macros", "rt-multi-thread", "net"] }
tower-http = { version = "=0.6.11", features = ["cors"] }
zcash_client_backend = { version = "=0.24.0", features = ["orchard", "sync", "lightwalletd-tonic", "lightwalletd-tonic-tls-webpki-roots", "lightwalletd-tonic-transport"] }
zcash_client_sqlite = { version = "=0.22.0", features = ["orchard"] }
zcash_keys = { version = "=0.16.1", features = ["orchard"] }
zcash_note_encryption = "=0.4.2"
zcash_primitives = "=0.30.1"
zcash_proofs = { version = "=0.30.0", features = ["download-params"] }
zcash_protocol = "=0.10.6"
zip32 = "=0.2.1"
