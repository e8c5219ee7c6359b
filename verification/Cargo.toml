[package]
name = "road_store"
version = "0.1.0"
edition = "2021"
publish = false

[dependencies]
glam = "0.30"
egui = { version = "=0.37.0", default-features = false }
bevy = { version = "=0.17.3", default-features = false, features = ["bevy_gizmos", "bevy_core_pipeline", "bevy_render", "bevy_window", "bevy_state", "bevy_log"] }
bevy_enhanced_input = "=0.19.3"
ron = "=0.12.2"
serde = { version = "=1.0.229", features = ["derive"] }
