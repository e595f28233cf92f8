[package]
name = "contract_deployer"
version = "0.1.0"
edition = "2021"
publish = false

[dependencies]
alloy = { version = "1", default-features = false, features = ["std", "providers", "provider-http", "signer-local", "rpc-types", "reqwest", "sol-types"] }
anyhow = "1"
dotenvy = "0.15"
rand = "0.9"
serde = { version = "1", features = ["derive"] }
serde_json = "1"
tokio = { version = "1", features = ["macros", "rt-multi-thread"] }
