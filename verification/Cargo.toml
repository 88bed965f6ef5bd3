[package]
name = "mouseless"
version = "0.1.0"
edition = "2021"
publish = false

[dependencies]
ashpd = { version = "=0.13.13", default-features = false, features = ["tokio", "screenshot"] }
eframe = { version = "=0.36.2", default-features = false, features = ["glow", "x11"] }
egui_extras = { version = "=0.36.2", default-features = false, features = ["image"] }
enigo = "=0.6.1"
tokio = { version = "=1.53.2", default-features = false, features = ["rt-multi-thread", "macros"] }
