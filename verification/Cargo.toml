[package]
name = "bevy_tiled_blueprints"
version = "0.1.0"
edition = "2021"
publish = false

[dependencies]
bevy = { version = "0.14", default-features = false, features = ["bevy_asset"] }
ron = "0.8"
serde = "1"
thiserror = "1"
tiled = { version = "0.12", default-features = false }
