[package]
name = "espn_ffl"
version = "0.1.0"
edition = "2021"
publish = false

[dependencies]
base64 = "0.22"
lru = "0.12"
serde = { version = "1", features = ["derive"] }
serde_json = "1"
clap = { version = "4", features = ["derive"] }
tokio = { version = "1", features = ["macros", "rt-multi-thread", "time", "sync"] }
reqwest = { version = "0.12", default-features = false, features = ["json"] }
rusqlite = "0.32"
dirs = "5"
anyhow = "1"
thiserror = "1"
rayon = "1"
once_cell = "1"
