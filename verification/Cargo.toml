[package]
name = "webb_relayer"
version = "0.1.0"
edition = "2021"
publish = false

[dependencies]
ark-bn254 = "0.3"
ark-ff = "0.3"
arkworks-native-gadgets = "1"
arkworks-setups = "1"
arkworks-utils = "1"
serde = { version = "1", features = ["derive"] }
tokio = { version = "1", features = ["rt", "sync", "time", "macros"] }
anyhow = "1"
