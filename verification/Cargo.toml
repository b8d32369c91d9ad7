[package]
name = "discord_image_downloader"
version = "0.1.0"
edition = "2021"
publish = false

[dependencies]
chrono = "=0.4.45"
reqwest = { version = "=0.13.5", features = ["json"] }
serenity = { version = "=0.12.5", default-features = false, features = ["model", "rustls_backend"] }
tokio = { version = "=1.53.2", features = ["macros", "rt-multi-thread"] }
