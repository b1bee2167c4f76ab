[package]
name = "solarmeter"
version = "0.1.0"
edition = "2021"
publish = false

[dependencies]
anyhow = "1"
chrono = { version = "=0.4.45", features = ["serde"] }
dirs = "=7.0.0"
half = "=2.7.1"
log = "=0.4.34"
log4rs = "=1.4.0"
rusqlite = { version = "=0.40.2", features = ["bundled"] }
serde = { version = "1", features = ["derive"] }
tokio = { version = "=1.54.1", features = ["full"] }
tokio-modbus = { version = "=0.17.0", default-features = false, features = ["rtu", "rtu-sync"] }
tokio-serial = { version = "=5.5.0", default-features = false }
toml = "=1.1.8"
warp = { version = "=0.4.3", features = ["server"] }
