[package]
name = "bevy_replicon_spawn"
version = "0.1.0"
edition = "2021"
publish = false

[dependencies]
bevy_app = { version = "0.16.1", default-features = false }
bevy_ecs = { version = "0.16.1", default-features = false }
bevy_replicon = { version = "0.33.0", default-features = false }
proc-macro2 = "=1.0.107"
quote = "=1.0.47"
syn = { version = "=2.0.119", features = ["full"] }
