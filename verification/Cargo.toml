[package]
name = "vts"
version = "0.1.0"
edition = "2021"
publish = false

[dependencies]
bincode = "2"
candid = "0.10"
env_logger = "0.11"
hex = "0.4"
ic-agent = "0.35"
ic-cdk = "0.13"
ic-cdk-timers = "0.7"
ic-stable-structures = "0.6"
icrc-ledger-types = "0.1"
k256 = "0.13"
log = "0.4"
rand = "0.8"
rust_decimal = "1"
serde = { version = "1", features = ["derive"] }
serde_json = "1"
time = "0.3"
tokio = { version = "1", features = ["full"] }
zip = { version = "2", default-features = false }
