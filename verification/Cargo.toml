[package]
name = "text_researcher"
version = "0.1.0"
edition = "2021"
publish = false

[dependencies]
anyhow = "*"
chrono = "*"
clap = { version = "4", features = ["derive"] }
dirs = "*"
env_logger = "*"
log = "*"
r2d2 = "*"
r2d2_postgres = "*"
ratatui = "*"
rayon = "*"
rusqlite = { version = "*", features = ["bundled"] }
serde = { version = "1", features = ["derive"] }
serde_json = "*"
serde_yaml = "*"
thiserror = "*"
