[package]
name = "sendgrid_manager"
version = "0.1.0"
edition = "2021"
publish = false

[dependencies]
ansi_term = "=0.12.1"
anyhow = "=1.0.104"
clap = "=4.6.7"
console = "=0.16.6"
futures = "=0.3.34"
indicatif = "=0.18.6"
reqwest = { version = "=0.13.5", default-features = false, features = ["json", "rustls-no-provider"] }
serde = { version = "=1.0.229", features = ["derive"] }
serde_json = "=1.0.151"
thiserror = "=2.0.21"
tokio = { version = "=1.53.2", features = ["full"] }
