[package]
name = "kongbot"
version = "0.1.0"
edition = "2021"
publish = false

[dependencies]
anyhow = "1"
async-trait = "=0.1.92"
candid = "=0.10.39"
ic-cdk = "=0.17.2"
ic-cdk-timers = "=0.11.1"
ic-http-certification = "*"
ic-stable-structures = "*"
icrc-ledger-types = "*"
rmp-serde = "*"
serde = { version = "=1.0.229", features = ["derive"] }
serde_json = "=1.0.154"
