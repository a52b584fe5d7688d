[package]
name = "necropolis"
version = "0.1.0"
edition = "2021"
publish = false

[dependencies]
serde = { version = "=1.0.229", features = ["derive"] }
serde_json = "=1.0.154"
bevy = { version = "=0.16.1", default-features = false, features = ["bevy_pbr", "bevy_ui", "bevy_text", "bevy_state", "bevy_gizmos", "default_font", "bevy_window"] }
