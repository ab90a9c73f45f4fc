[package]
name = "bevy_salo"
version = "0.1.0"
edition = "2021"
publish = false

[dependencies]
anyhow = "1"
bevy_app = { version = "0.12", default-features = false }
bevy_ecs = { version = "0.12", default-features = false }
bevy_hierarchy = { version = "0.12", default-features = false }
postcard = { version = "1", features = ["use-std"] }
ron = "0.8"
serde = { version = "1", features = ["derive"] }
serde_json = "1"
