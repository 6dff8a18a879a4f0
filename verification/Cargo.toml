[package]
name = "akgine"
version = "0.1.0"
edition = "2021"
publish = false

[dependencies]
serde = { version = "1", features = ["derive"] }
serde_json = "1"
tiny_http = "0.12"
syn = { version = "2", features = ["full"] }
quote = "1"
proc-macro2 = "1"
eframe = { version = "0.37.0", default-features = false, features = ["glow", "x11", "default_fonts"] }
egui_extras = { version = "0.37.0", default-features = false }
