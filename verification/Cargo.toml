[package]
name = "rustynesting"
version = "0.1.0"
edition = "2021"
publish = false

[dependencies]
chrono = { version = "=0.4.45", default-features = false, features = ["std", "clock"] }
dirs = "=7.0.0"
dxf = "=0.6.2"
eframe = { version = "=0.32.3", default-features = false, features = ["default_fonts", "glow", "persistence", "x11"] }
egui = { version = "=0.32.3", default-features = false, features = ["default_fonts"] }
rayon = "=1.12.0"
rfd = { version = "=0.15.4", default-features = false, features = ["xdg-portal", "tokio"] }
serde = { version = "=1.0.229", features = ["derive"] }
serde_json = "=1.0.154"
ureq = { version = "=2.12.1", default-features = false, features = ["tls"] }
