[package]
name = "sprinkles_editor"
version = "0.1.0"
edition = "2021"
publish = false

[dependencies]
bevy = { version = "=0.17.3", default-features = false, features = ["bevy_ui", "bevy_text", "bevy_picking", "bevy_ui_picking_backend", "bevy_color", "bevy_asset"] }
bevy_easings = "=0.17.1"
