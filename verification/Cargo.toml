[package]
name = "golden_alchemist"
version = "0.1.0"
edition = "2021"
publish = false

[dependencies]
indexmap = "2"
smallvec = "1"
smol_str = "0.3"
serde = { version = "1", features = ["derive"] }
serde_json = "1"
thiserror = "2"
