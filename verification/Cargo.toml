[package]
name = "singing_sand"
version = "0.1.0"
edition = "2021"
publish = false

[dependencies]
anyhow = "1"
thiserror = "1"
serde = { version = "1", features = ["derive"] }
serde_json = "1"
tokio = { version = "1", features = ["rt-multi-thread", "sync", "time", "macros"] }
sqlx = { version = "0.8", default-features = false, features = ["runtime-tokio", "sqlite"] }
tracing = "0.1"
tracing-subscriber = { version = "0.3", features = ["env-filter"] }
walkdir = "2"
notify = "6"
lofty = "0.21"
image = { version = "0.25", default-features = false, features = ["png", "jpeg"] }
symphonia = "0.5"
spectrum-analyzer = "1"
rodio = { version = "0.19", default-features = false }
flume = "0.11"
crossbeam-channel = "0.5"
