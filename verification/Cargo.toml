[package]
name = "cosmic_media_applet"
version = "0.3.0"
edition = "2021"
publish = false

[dependencies]
anyhow = "1"
async-trait = "0.1"
futures = "0.3"
minimp3 = "*"
rodio = "0.20"
rusqlite = { version = "0.29", features = ["bundled"] }
thiserror = "1"
tokio = { version = "1", features = ["full"] }
tracing = "0.1"
tracing-subscriber = { version = "0.3", features = ["env-filter"] }
zbus = "5"
zvariant = "5"
