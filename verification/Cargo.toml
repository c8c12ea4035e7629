[package]
name = "neuronic"
version = "0.1.0"
edition = "2021"
publish = false

[dependencies]
petgraph = "=0.8.3"
buswatch-types = { version = "=0.1.0", features = ["serde"] }
egui = "=0.33.3"
eframe = { version = "=0.33.3", default-features = false, features = ["default_fonts", "glow", "x11"] }
serde = { version = "=1.0.229", features = ["derive"] }
config = { version = "=0.15.27", default-features = false, features = ["toml"] }
anyhow = "=1.0.104"
clap = { version = "=4.6.7", features = ["derive"] }
lapin = { version = "=4.12.3", default-features = false, features = ["tokio"] }
tokio = { version = "=1.54.1", features = ["rt-multi-thread", "sync", "macros"] }
futures-util = "=0.3.34"
minicbor-serde = { version = "=0.7.2", features = ["alloc"] }
tracing = "=0.1.44"
tracing-subscriber = { version = "=0.3.23", features = ["env-filter"] }
