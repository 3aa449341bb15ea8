[package]
name = "prestate_rw"
version = "0.1.0"
edition = "2021"
publish = false

[dependencies]
alloy-primitives = "=0.8.26"
hex = "=0.4.3"
serde_json = "=1.0.154"
alloy-provider = { version = "0.6", default-features = false, features = ["reqwest"] }
alloy-rpc-types-eth = "0.6"
anyhow = "=1.0.104"
indicatif = "=0.17.11"
tokio = { version = "=1.54.1", features = ["macros", "rt-multi-thread"] }
