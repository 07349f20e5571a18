[package]
name = "cullr"
version = "0.1.0"
edition = "2021"
publish = false

[dependencies]
anyhow = "=1.0.104"
crossbeam-channel = "=0.5.17"
dirs = "=7.0.0"
eframe = { version = "=0.36.2", default-features = false, features = ["default_fonts", "glow", "persistence", "x11"] }
image = { version = "=0.25.10", default-features = false, features = ["jpeg"] }
md-5 = "=0.10.6"
rawler = "=0.7.2"
rayon = "=1.12.0"
rfd = { version = "=0.17.2", default-features = false, features = ["xdg-portal"] }
rusqlite = { version = "=0.41.1", features = ["bundled"] }
thiserror = "=2.0.21"
tracing = "=0.1.44"
tracing-subscriber = { version = "=0.3.23", features = ["env-filter"] }
walkdir = "=2.5.0"

[dev-dependencies]
tempfile = "=3.27.0"
