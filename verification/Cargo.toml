[package]
name = "chill_bevy_console"
version = "0.1.0"
edition = "2021"
publish = false

[dependencies]
bevy = { version = "=0.19.1", default-features = false, features = ["std", "bevy_state", "bevy_log", "keyboard", "mouse", "touch", "bevy_window", "bevy_input_focus", "bevy_text", "bevy_ui", "bevy_ui_widgets", "bevy_picking", "ui_picking", "reflect_documentation"] }
