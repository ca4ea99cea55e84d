[package]
name = "vehicle_evolver"
version = "0.1.0"
edition = "2021"
publish = false

[dependencies]
bevy = { version = "=0.5.0", default-features = false, features = ["bevy_gltf", "bevy_wgpu", "bevy_winit", "png", "render", "x11"] }
bevy-inspector-egui = { version = "=0.5.1", default-features = false }
bevy_egui = { version = "=0.5.0", default-features = false }
bevy_prototype_lyon = "=0.3.1"
bevy_rapier2d = "=0.10.2"
chrono = "0.4"
colorous = "=1.0.16"
dashmap = "=4.0.2"
derive-new = "=0.5.9"
egui = "=0.12.0"
fern = "=0.6.2"
log = "=0.4.34"
ndarray = "=0.15.6"
rand = "=0.8.8"
