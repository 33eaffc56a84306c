[package]
name = "event_modifiers"
version = "0.1.0"
edition = "2021"
publish = false

[dependencies]
bevy_app = { version = "0.14", default-features = false }
bevy_ecs = { version = "0.14", default-features = false }
proc-macro2 = "1"
quote = "1"
syn = "2"

[dev-dependencies]
rand = "0.8"
