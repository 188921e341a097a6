[package]
name = "bevy_animation_graph_core"
version = "0.1.0"
edition = "2021"
publish = false

[dependencies]
bevy = { version = "=0.17.3", default-features = false, features = ["bevy_asset", "bevy_gltf", "bevy_animation", "animation", "bevy_log"] }
ron = "=0.11.0"
serde = { version = "=1.0.229", features = ["derive"] }
