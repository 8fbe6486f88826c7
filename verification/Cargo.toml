[package]
name = "ashiojin_extensions"
version = "0.1.0"
edition = "2021"
publish = false

[dependencies]
serde = { version = "=1.0.229", features = ["derive"] }
serde_json = "=1.0.154"
thiserror = "=2.0.21"
tokio = { version = "=1.54.1", features = ["rt-multi-thread", "sync", "net", "macros"] }
axum = { version = "=0.8.9", features = ["macros"] }
tower-http = { version = "=0.7.1", features = ["cors"] }
bevy = { version = "=0.19.1", default-features = false, features = ["bevy_animation", "bevy_gltf", "bevy_pbr", "bevy_log", "gltf_animation"] }
petgraph = { version = "=0.8.3", default-features = false }
