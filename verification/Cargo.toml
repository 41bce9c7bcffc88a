[package]
name = "typezero_core"
version = "0.1.0"
edition = "2021"
publish = false

[dependencies]
hound = "*"
chrono = "*"
serde = { version = "*", features = ["derive"] }
serde_json = "*"
log = "*"
anyhow = "*"
rusqlite = { version = "*", features = ["bundled"] }
rusqlite_migration = "*"
sysinfo = "*"
