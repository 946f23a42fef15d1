[package]
name = "flow_state"
version = "0.1.0"
edition = "2021"
publish = false

[dependencies]
spellbook = "*"
unicode-segmentation = "1"
dirs = "*"
serde = { version = "1", features = ["derive"] }
toml = "*"
anyhow = "1"
fontdb = "*"
image = { version = "*", default-features = false, features = ["png"] }
