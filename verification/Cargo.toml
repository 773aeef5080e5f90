[package]
name = "egui_states"
version = "0.1.0"
edition = "2021"
publish = false

[dependencies]
bytes = "=1.12.1"
egui = { version = "=0.37.0", default-features = false }
