[package]
name = "terrain_nav"
version = "0.1.0"
edition = "2021"
publish = false

[dependencies]
rand = "=0.8.8"
polyanya = "=0.1.7"
bracket-noise = "=0.8.7"
crossbeam-channel = "=0.5.17"
bevy = { version = "0.8", default-features = false, features = ["render", "bevy_asset", "bevy_scene", "bevy_gltf", "bevy_winit", "png", "x11"] }
bevy_mod_raycast = "0.6"

[dev-dependencies]
glam = "=0.21.3"
