[package]
name = "actix-login"
version = "0.1.0"
edition = "2021"
publish = false

[dependencies]
actix-web = { version = "=4.18.1", default-features = false, features = ["cookies", "macros"] }
actix-session = { version = "=0.10.1", default-features = false }
subtle = "=2.6.1"
serde = { version = "=1.0.229", features = ["derive"] }
thiserror = "=2.0.21"
anyhow = "=1.0.104"
tracing = "=0.1.44"
