[package]
name = "factory_sim"
version = "0.1.0"
edition = "2021"
publish = false

[dependencies]
pathfinding = "=4.16.0"
rand = "=0.8.8"
rand_pcg = "=0.3.1"
bevy = { version = "=0.9.1", default-features = false, features = ["bevy_asset", "bevy_render", "bevy_core_pipeline", "bevy_pbr"] }
bevy_egui = { version = "=0.19.0", default-features = false }
bevy_mod_raycast = "0.7"
iyes_loopless = "=0.9.1"
rkyv = { version = "=0.7.46", features = ["validation"] }
bytecheck = "=0.6.12"
int-enum = "=0.5.0"
