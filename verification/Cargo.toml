[package]
name = "cip"
version = "0.1.0"
edition = "2021"
publish = false

[dependencies]
ansi_term = "=0.12.1"
chrono = "=0.4.45"
clap = { version = "=4.6.7", features = ["derive"] }
directories = "=6.0.0"
futures = "=0.3.34"
html5ever = "=0.22.5"
indicatif = "=0.17.11"
lazy_static = "=1.5.1"
r2d2 = "=0.8.10"
r2d2_sqlite = "=0.35.0"
reqwest = { version = "=0.13.5", features = ["json"] }
rusqlite = { version = "=0.40.2", features = ["chrono"] }
serde = { version = "=1.0.229", features = ["derive"] }
soup = "=0.5.1"
tokio = { version = "=1.54.1", features = ["full"] }
