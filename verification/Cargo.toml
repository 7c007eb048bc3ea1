[package]
name = "alchemy"
version = "0.1.0"
edition = "2021"
publish = false

[dependencies]
bevy = { version = "=0.17.3", default-features = false, features = ["bevy_pbr", "bevy_ui", "bevy_text", "bevy_window", "bevy_core_pipeline", "bevy_render", "default_font", "std"] }
